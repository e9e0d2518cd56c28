use catty::infer::{file_name_path, parent_path, Database};

#[test]
fn new_database_is_empty() {
    let db = Database::new();
    let (cs, fs) = db.complete();
    assert!(cs.is_empty());
    assert!(fs.is_empty());
}

#[test]
fn file_creates_ancestor_collections() {
    let mut db = Database::new();
    assert_eq!(db.add_file_canon("/music/album/song.mp3"), Some(0));
    let (cs, fs) = db.complete();
    let paths: Vec<&str> = cs.iter().map(|c| c.path.as_str()).collect();
    assert_eq!(paths, vec!["/", "/music", "/music/album"]);
    let depths: Vec<usize> = cs.iter().map(|c| c.depth).collect();
    assert_eq!(depths, vec![1, 2, 3]);
    assert_eq!(cs[0].id_parent, None);
    assert_eq!(cs[1].id_parent, Some(0));
    assert_eq!(cs[2].id_parent, Some(1));
    assert_eq!(cs.iter().map(|c| c.has_files).collect::<Vec<_>>(), vec![false, false, true]);
    assert_eq!(fs.len(), 1);
    assert_eq!(fs[0].id, 0);
    assert_eq!(fs[0].id_collection, 2);
    assert_eq!(fs[0].path, "/music/album/song.mp3");
}

#[test]
fn paths_are_recorded_once() {
    let mut db = Database::new();
    assert_eq!(db.add_file_canon("/m/a/one.mp3"), Some(0));
    assert_eq!(db.add_file_canon("/m/b/two.mp3"), Some(1));
    assert_eq!(db.add_file_canon("/m/a/one.mp3"), Some(0));
    assert_eq!(db.add_collection_canon("/m"), Some(1));
    let (cs, fs) = db.complete();
    assert_eq!(cs.len(), 4);
    assert_eq!(fs.len(), 2);
    assert_eq!(cs[3].path, "/m/b");
    assert_eq!(cs[3].id_parent, Some(1));
    assert_eq!(cs[3].depth, 3);
}

#[test]
fn root_collection_has_depth_one() {
    let mut db = Database::new();
    assert_eq!(db.add_collection_canon("/"), Some(0));
    let (cs, _) = db.complete();
    assert_eq!(cs[0].depth, 1);
    assert_eq!(cs[0].id_parent, None);
    assert!(!cs[0].has_files);
}

#[test]
fn relative_paths_are_refused() {
    let mut db = Database::new();
    assert_eq!(db.add_collection_canon("music/album"), None);
    assert_eq!(db.add_file_canon("song.mp3"), None);
    assert_eq!(db.add_file_canon("/"), None);
    let (cs, fs) = db.complete();
    assert!(cs.is_empty());
    assert!(fs.is_empty());
}

#[test]
fn path_components() {
    assert_eq!(parent_path("/a/b/c"), Some("/a/b".to_string()));
    assert_eq!(parent_path("/a"), Some("/".to_string()));
    assert_eq!(parent_path("/"), None);
    assert_eq!(parent_path("a/b"), None);
    assert_eq!(file_name_path("/a/b/song.mp3"), "song.mp3");
    assert_eq!(file_name_path("plain"), "plain");
}
