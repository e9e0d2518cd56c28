use catty::meta::{get_category_name, parse, stem_split, FileParts, Tags, TrackMeta};

fn s(x: &str) -> String {
    x.to_string()
}

fn no_tags() -> Tags {
    Tags { artist: None, album_title: None, album_artist: None, track_number: None, title: None }
}

fn parts(dir: &str, parent: &str, name: &str, stem: &str) -> FileParts {
    FileParts {
        file_name: Some(s(name)),
        file_stem: Some(s(stem)),
        dir_name: Some(s(dir)),
        parent_dir_name: Some(s(parent)),
    }
}

#[test]
fn new_meta_is_empty() {
    let m = TrackMeta::new();
    assert!(m.artists.is_empty());
    assert!(m.features.is_empty());
    assert_eq!(m.album, None);
    assert_eq!(m.title, None);
    assert_eq!(m.track_number, None);
}

#[test]
fn artist_text_with_inline_feature() {
    let mut m = TrackMeta::new();
    m.from_artist("Alice, Bob feat. Carol");
    assert_eq!(m.artists, vec![s("Alice"), s("Bob")]);
    assert_eq!(m.features, vec![s("Carol")]);
}

#[test]
fn artist_text_with_multi_word_names() {
    let mut m = TrackMeta::new();
    m.from_artist("100 gecs, Laura Les feat. Dorian Electra");
    assert_eq!(m.artists, vec![s("100 gecs"), s("Laura Les")]);
    assert_eq!(m.features, vec![s("Dorian Electra")]);
}

#[test]
fn feature_and_artist_never_overlap_by_case() {
    let mut m = TrackMeta::new();
    m.from_artist("Alice, BOB ft. bob");
    assert_eq!(m.features, vec![s("bob")]);
    assert_eq!(m.artists, vec![s("Alice")]);
}

#[test]
fn artist_separators() {
    let mut m = TrackMeta::new();
    m.from_artist("A & B; C and D + E x F\0G");
    assert_eq!(m.artists, vec![s("A"), s("B"), s("C"), s("D"), s("E"), s("F"), s("G")]);
    assert!(m.features.is_empty());
}

#[test]
fn feature_marker_forms() {
    let mut m = TrackMeta::new();
    m.from_artist("A Ft. B");
    assert_eq!(m.artists, vec![s("A")]);
    assert_eq!(m.features, vec![s("B")]);
    let mut m = TrackMeta::new();
    m.from_artist("A, feat C");
    assert_eq!(m.artists, vec![s("A")]);
    assert_eq!(m.features, vec![s("C")]);
    let mut m = TrackMeta::new();
    m.from_artist("Fiona Left");
    assert_eq!(m.artists, vec![s("Fiona Left")]);
}

#[test]
fn blank_artist_text_adds_nothing() {
    let mut m = TrackMeta::new();
    m.from_artist("   ");
    assert!(m.artists.is_empty());
}

#[test]
fn re_registering_in_other_case_is_ignored() {
    let mut m = TrackMeta::new();
    assert!(m.add_artist("Foo Fighters", false));
    assert!(!m.add_artist("FOO FIGHTERS", false));
    assert!(!m.add_artist("  foo fighters ", true));
    assert_eq!(m.artists, vec![s("Foo Fighters")]);
    assert!(m.features.is_empty());
}

#[test]
fn stem_with_primary_separator() {
    assert_eq!(stem_split("Artist - Title"), (Some(s("Artist")), s("Title")));
    assert_eq!(stem_split("Artist – Title"), (Some(s("Artist")), s("Title")));
    assert_eq!(stem_split("A - B - C"), (Some(s("A")), s("B - C")));
}

#[test]
fn stem_with_fallback_separator() {
    assert_eq!(stem_split("Artist -Title"), (Some(s("Artist")), s("Title")));
    assert_eq!(stem_split("Artist— Title"), (None, s("Artist— Title")));
    assert_eq!(stem_split("Artist — Title"), (Some(s("Artist")), s("Title")));
    assert_eq!(stem_split("Artist :: Title"), (Some(s("Artist")), s("Title")));
    assert_eq!(stem_split("Artist ~ Title"), (Some(s("Artist")), s("Title")));
}

#[test]
fn stem_without_separator_is_unchanged() {
    assert_eq!(stem_split("x-ray vision"), (None, s("x-ray vision")));
    assert_eq!(stem_split("Title"), (None, s("Title")));
    assert_eq!(stem_split("  Title "), (None, s("  Title ")));
    assert_eq!(stem_split(" x"), (None, s(" x")));
    assert_eq!(stem_split(" Artist - Title "), (Some(s("Artist")), s("Title")));
}

#[test]
fn title_feature_clause_is_cut() {
    let mut m = TrackMeta::new();
    m.from_title("Song (feat. A & B)");
    assert_eq!(m.title, Some(s("Song")));
    assert_eq!(m.features, vec![s("A"), s("B")]);
    let mut m = TrackMeta::new();
    m.from_title("Song [ ft Someone]]");
    assert_eq!(m.title, Some(s("Song")));
    assert_eq!(m.features, vec![s("Someone]")]);
}

#[test]
fn first_title_wins() {
    let mut m = TrackMeta::new();
    m.from_title("First");
    m.from_title("Second (feat. X)");
    assert_eq!(m.title, Some(s("First")));
    assert_eq!(m.features, vec![s("X")]);
}

#[test]
fn album_setters_trim_and_keep_first() {
    let mut m = TrackMeta::new();
    m.from_album("  ");
    assert_eq!(m.album, None);
    m.from_album(" One ");
    m.from_album("Two");
    assert_eq!(m.album, Some(s("One")));
    m.from_album_author("Who");
    m.from_album_author("Else");
    assert_eq!(m.album_author, Some(s("Who")));
}

#[test]
fn track_number_is_padded() {
    let mut m = TrackMeta::new();
    m.from_track_number(5);
    assert_eq!(m.track_number, Some((5, s("05 "))));
    m.from_track_number(7);
    assert_eq!(m.track_number, Some((5, s("05 "))));
    let mut m = TrackMeta::new();
    m.from_track_number(123);
    assert_eq!(m.track_number, Some((123, s("123 "))));
    let mut m = TrackMeta::new();
    m.from_track_number(0);
    assert_eq!(m.track_number, Some((0, s("00 "))));
}

#[test]
fn tag_album_wins_over_stem_album() {
    let mut tags = no_tags();
    tags.album_title = Some(s("Tag Album"));
    let p = parts("Stem Album", "Music", "Artist - Stem Album - Song.mp3", "Artist - Stem Album - Song");
    let m = parse(&tags, &p);
    assert_eq!(m.album, Some(s("Tag Album")));
    assert_eq!(m.title, Some(s("Stem Album - Song")));
    assert_eq!(m.artists, vec![s("Artist")]);
}

#[test]
fn album_from_directory_name() {
    let p = parts("Stem Album", "Music", "Artist - stem album - Song.mp3", "Artist - stem album - Song");
    let m = parse(&no_tags(), &p);
    assert_eq!(m.album, Some(s("stem album")));
    assert_eq!(m.title, Some(s("Song")));
    assert_eq!(m.artists, vec![s("Artist")]);
    assert_eq!(m.file_name, Some(s("Artist - stem album - Song.mp3")));
}

#[test]
fn album_from_artist_directory() {
    let p = parts("Greatest", "the artist", "The Artist - Song.flac", "The Artist - Song");
    let m = parse(&no_tags(), &p);
    assert_eq!(m.album, Some(s("Greatest")));
    assert_eq!(m.album_author, Some(s("the artist")));
    assert_eq!(m.title, Some(s("Song")));
    assert_eq!(m.artists, vec![s("The Artist")]);
}

#[test]
fn tag_title_repeating_the_artist_is_trimmed() {
    let mut tags = no_tags();
    tags.title = Some(s("Band - Real Title"));
    tags.artist = Some(s("Band"));
    let p = parts("x", "y", "whatever.mp3", "whatever");
    let m = parse(&tags, &p);
    assert_eq!(m.title, Some(s("Real Title")));
    assert_eq!(m.artists, vec![s("Band")]);
}

#[test]
fn stem_artist_comes_before_tag_artist() {
    let mut tags = no_tags();
    tags.artist = Some(s("Zed, Alpha"));
    let p = parts("x", "y", "Alpha - Song.mp3", "Alpha - Song");
    let m = parse(&tags, &p);
    assert_eq!(m.artists, vec![s("Alpha"), s("Zed")]);
}

#[test]
fn feature_file_with_track_number_tag() {
    let mut tags = no_tags();
    tags.track_number = Some(5);
    let stem = "05 - 100 gecs, Fall Out Boy - hand crushed by a mallet (Remix) [feat. Fall Out Boy, Craig Owens]";
    let name = format!("{}.mp3", stem);
    let p = parts("music", "home", &name, stem);
    let m = parse(&tags, &p);
    assert_eq!(m.title, Some(s("hand crushed by a mallet (Remix)")));
    assert_eq!(m.artists, vec![s("100 gecs")]);
    assert_eq!(m.features, vec![s("Fall Out Boy"), s("Craig Owens")]);
    let count = m.artists.iter().chain(m.features.iter()).filter(|x| x.as_str() == "Fall Out Boy").count();
    assert_eq!(count, 1);
    assert_eq!(m.track_number, Some((5, s("05 "))));
}

#[test]
fn feature_file_without_tags() {
    let stem = "05 - 100 gecs, Fall Out Boy - hand crushed by a mallet (Remix) [feat. Fall Out Boy, Craig Owens]";
    let name = format!("{}.mp3", stem);
    let p = parts("music", "home", &name, stem);
    let m = parse(&no_tags(), &p);
    assert_eq!(m.title, Some(s("100 gecs, Fall Out Boy - hand crushed by a mallet (Remix)")));
    assert_eq!(m.artists, vec![s("05")]);
    assert_eq!(m.features, vec![s("Fall Out Boy"), s("Craig Owens")]);
}

#[test]
fn missing_stem_keeps_tag_fields() {
    let mut tags = no_tags();
    tags.title = Some(s("Tagged"));
    tags.album_artist = Some(s("Someone"));
    let p = FileParts { file_name: None, file_stem: None, dir_name: None, parent_dir_name: None };
    let m = parse(&tags, &p);
    assert_eq!(m.title, Some(s("Tagged")));
    assert_eq!(m.album_author, Some(s("Someone")));
    assert_eq!(m.artists, vec![s("unknown")]);
}

#[test]
fn author_prefers_album_author() {
    let mut m = TrackMeta::new();
    m.from_artist("Solo");
    assert_eq!(m.get_author(), Some("Solo"));
    m.from_album_author("Band");
    assert_eq!(m.get_author(), Some("Band"));
}

#[test]
fn author_of_several_artists_is_the_first() {
    let mut m = TrackMeta::new();
    m.from_artist("unknown, Other");
    assert_eq!(m.get_author(), Some("unknown"));
}

#[test]
fn placeholder_artists_have_no_author() {
    let mut m = TrackMeta::new();
    m.from_artist("Unknown");
    assert_eq!(m.get_author(), None);
    let mut m = TrackMeta::new();
    m.from_artist("ID");
    assert_eq!(m.get_author(), None);
    let m = TrackMeta::new();
    assert_eq!(m.get_author(), None);
}

#[test]
fn category_buckets() {
    assert_eq!(get_category_name("abba"), "A-F");
    assert_eq!(get_category_name("Fleetwood"), "A-F");
    assert_eq!(get_category_name("Gorillaz"), "G-K");
    assert_eq!(get_category_name("kraftwerk"), "G-K");
    assert_eq!(get_category_name("Lorde"), "L-P");
    assert_eq!(get_category_name("Queen"), "Q-U");
    assert_eq!(get_category_name("zedd"), "V-Z");
    assert_eq!(get_category_name(""), ".other");
}

#[test]
fn non_letter_authors_go_to_catch_all() {
    assert_eq!(get_category_name("100 gecs"), ".other");
    assert_eq!(get_category_name("2Pac"), ".other");
    assert_eq!(get_category_name("élan"), ".other");
    assert_eq!(get_category_name("[bracket]"), ".other");
}

#[test]
fn largest_track_number() {
    let mut m = TrackMeta::new();
    m.from_track_number(usize::MAX);
    let expected = format!("{} ", usize::MAX);
    assert_eq!(m.track_number, Some((usize::MAX, expected)));
}

#[test]
fn no_artist_found_gives_unknown() {
    let p = parts("lib", "", "Title.mp3", "Title");
    let m = parse(&no_tags(), &p);
    assert_eq!(m.artists, vec![s("unknown")]);
    assert_eq!(m.title, Some(s("Title")));
    assert_eq!(m.get_author(), None);
}

#[test]
fn unknown_feature_blocks_the_placeholder() {
    let p = parts("lib", "", "Title (feat. Unknown).mp3", "Title (feat. Unknown)");
    let m = parse(&no_tags(), &p);
    assert!(m.artists.is_empty());
    assert_eq!(m.features, vec![s("Unknown")]);
}
