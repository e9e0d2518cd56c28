use catty::meta::TrackMeta;
use catty::sort::{get_rel_path, path_starts_with, sole_author_of, Catalog, Step};

fn meta(artist: &str, album: Option<&str>, album_author: Option<&str>) -> TrackMeta {
    let mut m = TrackMeta::new();
    m.from_artist(artist);
    if let Some(a) = album {
        m.from_album(a);
    }
    if let Some(a) = album_author {
        m.from_album_author(a);
    }
    m
}

fn run_all(catalog: Catalog, wd: &str, confirm: bool) -> Vec<Step> {
    let mut planner = catalog.into_planner(wd);
    let mut steps = Vec::new();
    loop {
        let step = planner.next_step();
        match step {
            Step::Done => break,
            Step::Move { .. } => {
                if confirm {
                    planner.confirm();
                }
            }
            _ => {}
        }
        steps.push(step);
    }
    steps
}

fn moves(steps: &[Step]) -> Vec<(String, String)> {
    steps
        .iter()
        .filter_map(|s| match s {
            Step::Move { source, dest } => Some((source.clone(), dest.clone())),
            _ => None,
        })
        .collect()
}

#[test]
fn relative_paths() {
    assert_eq!(get_rel_path("/home/u", "/home/u/a/b.mp3"), "a/b.mp3");
    assert_eq!(get_rel_path("/home/u", "/home/user/x.mp3"), "/home/user/x.mp3");
    assert_eq!(get_rel_path("/home/u", "/home/u"), "");
    assert_eq!(get_rel_path("/", "/a/b"), "a/b");
    assert_eq!(get_rel_path("/x", "/y/z"), "/y/z");
}

#[test]
fn component_prefixes() {
    assert!(path_starts_with("/home/u/music", "/home/u"));
    assert!(path_starts_with("/home/u", "/home/u"));
    assert!(!path_starts_with("/home/user", "/home/u"));
    assert!(path_starts_with("/anything", "/"));
}

#[test]
fn single_author_collection_moves_whole() {
    let mut c = Catalog::new();
    assert_eq!(c.add("/w/lib/Album/one.mp3", meta("Art", Some("Album"), Some("Art"))), Some(0));
    assert_eq!(c.add("/w/lib/Album/two.mp3", meta("Art", Some("album"), Some("Art"))), Some(1));
    let steps = run_all(c, "/w", true);
    assert_eq!(moves(&steps), vec![("lib/Album".to_string(), "A-F/Art/Album".to_string())]);
}

#[test]
fn unconfirmed_collection_move_leaves_files_to_plan() {
    let mut c = Catalog::new();
    c.add("/w/lib/Album/one.mp3", meta("Art", Some("Album"), Some("Art")));
    let steps = run_all(c, "/w", false);
    assert_eq!(
        moves(&steps),
        vec![
            ("lib/Album".to_string(), "A-F/Art/Album".to_string()),
            ("lib/Album/one.mp3".to_string(), "A-F/Art/Album/one.mp3".to_string()),
        ]
    );
}

#[test]
fn mixed_author_collection_stays() {
    let mut c = Catalog::new();
    c.add("/w/lib/Split/one.mp3", meta("Alpha", Some("Split"), Some("Alpha")));
    c.add("/w/lib/Split/two.mp3", meta("Beta", Some("Split"), Some("Beta")));
    let steps = run_all(c, "/w", true);
    assert_eq!(
        moves(&steps),
        vec![
            ("lib/Split/one.mp3".to_string(), "A-F/Alpha/Split/one.mp3".to_string()),
            ("lib/Split/two.mp3".to_string(), "A-F/Beta/Split/two.mp3".to_string()),
        ]
    );
}

#[test]
fn sole_author_needs_exactly_one() {
    let obs = vec![(0, "A".to_string()), (1, "B".to_string()), (0, "A".to_string()), (2, "C".to_string()), (2, "D".to_string())];
    assert_eq!(sole_author_of(&obs, 0), Some("A".to_string()));
    assert_eq!(sole_author_of(&obs, 1), Some("B".to_string()));
    assert_eq!(sole_author_of(&obs, 2), None);
    assert_eq!(sole_author_of(&obs, 3), None);
}

#[test]
fn file_already_in_place_is_unchanged() {
    let mut c = Catalog::new();
    c.add("/w/A-F/Art/Album/song.mp3", meta("Art", Some("Other Album"), None));
    let steps = run_all(c, "/w", true);
    assert!(moves(&steps).len() == 1);
    let mut c = Catalog::new();
    c.add("/w/a-f/art/album/song.mp3", meta("Art", Some("Album"), None));
    let steps = run_all(c, "/w", true);
    assert!(moves(&steps).is_empty());
    assert!(steps.iter().any(|s| matches!(s, Step::Unchanged { source } if source == "a-f/art/album/song.mp3")));
}

#[test]
fn moved_collection_is_unchanged_on_the_next_run() {
    let mut c = Catalog::new();
    c.add("/w/lib/Album/one.mp3", meta("Art", Some("Album"), Some("Art")));
    let steps = run_all(c, "/w", true);
    assert_eq!(moves(&steps), vec![("lib/Album".to_string(), "A-F/Art/Album".to_string())]);
    let mut c = Catalog::new();
    c.add("/w/A-F/Art/Album/one.mp3", meta("Art", Some("Album"), Some("Art")));
    let steps = run_all(c, "/w", true);
    assert!(moves(&steps).is_empty());
}

#[test]
fn unknown_author_goes_to_unknown_folder() {
    let mut c = Catalog::new();
    c.add("/w/in/track.mp3", meta("unknown", None, None));
    c.add("/w/in/other.mp3", meta("", Some("Loose"), None));
    let steps = run_all(c, "/w", true);
    assert_eq!(
        moves(&steps),
        vec![
            ("in/track.mp3".to_string(), ".other/.unknown/track.mp3".to_string()),
            ("in/other.mp3".to_string(), ".other/.unknown/Loose/other.mp3".to_string()),
        ]
    );
}

#[test]
fn collection_holding_working_dir_is_kept() {
    let mut c = Catalog::new();
    c.add("/w/Album/one.mp3", meta("Art", Some("Album"), Some("Art")));
    let steps = run_all(c, "/w/Album", true);
    assert_eq!(moves(&steps), vec![("one.mp3".to_string(), "A-F/Art/Album/one.mp3".to_string())]);
}

#[test]
fn child_collection_travels_with_parent() {
    let mut c = Catalog::new();
    c.add("/w/Parent/top.mp3", meta("Zed", Some("Parent"), Some("Zed")));
    c.add("/w/Parent/Child/low.mp3", meta("Zed", Some("Child"), Some("Zed")));
    let steps = run_all(c, "/w", true);
    assert_eq!(moves(&steps), vec![("Parent".to_string(), "V-Z/Zed/Parent".to_string())]);
}

#[test]
fn empty_catalog_is_done_at_once() {
    let c = Catalog::new();
    let mut planner = c.into_planner("/w");
    assert!(matches!(planner.next_step(), Step::Done));
    assert!(matches!(planner.next_step(), Step::Done));
}
