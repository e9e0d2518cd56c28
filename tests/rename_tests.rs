use catty::meta::TrackMeta;
use catty::rename::{format_name, plan_rename, rename_decision, Parts};

fn sample() -> TrackMeta {
    let mut m = TrackMeta::new();
    m.from_title("Song (feat. F)");
    m.from_artist("A, B");
    m.from_album("Alb");
    m.from_track_number(5);
    m
}

const ALL: Parts = Parts { artist: true, album: true, number: true, title: true };

#[test]
fn full_format() {
    assert_eq!(format_name(&sample(), ALL, "aAnt", Some("mp3")), "A, B - Alb - 05 Song [feat. F].mp3");
}

#[test]
fn default_parts() {
    let parts = Parts { artist: true, album: false, number: false, title: true };
    assert_eq!(format_name(&sample(), parts, "aAnt", Some("mp3")), "A, B - Song [feat. F].mp3");
}

#[test]
fn features_need_the_artist_part() {
    let parts = Parts { artist: false, album: false, number: true, title: true };
    assert_eq!(format_name(&sample(), parts, "aAnt", None), "05 Song");
}

#[test]
fn missing_title_is_untitled() {
    let mut m = TrackMeta::new();
    m.from_artist("Solo");
    assert_eq!(format_name(&m, ALL, "aAnt", Some("ogg")), "Solo - untitled.ogg");
    assert_eq!(format_name(&m, ALL, "", Some("ogg")), ".ogg");
}

#[test]
fn same_name_up_to_case_is_no_rename() {
    let m = sample();
    let parts = Parts { artist: true, album: false, number: false, title: true };
    assert_eq!(plan_rename(&m, parts, "aAnt", Some("mp3"), "A, B - Song [feat. F].mp3"), None);
    assert_eq!(plan_rename(&m, parts, "aAnt", Some("mp3"), "a, b - song [FEAT. f].MP3"), None);
    assert_eq!(
        plan_rename(&m, parts, "aAnt", Some("mp3"), "old.mp3"),
        Some("A, B - Song [feat. F].mp3".to_string())
    );
}

#[test]
fn unsafe_characters_are_replaced() {
    let mut m = TrackMeta::new();
    m.from_title("AC/DC");
    let parts = Parts { artist: false, album: false, number: false, title: true };
    assert_eq!(plan_rename(&m, parts, "t", Some("mp3"), "x.mp3"), Some("AC_DC.mp3".to_string()));
}

#[test]
fn decision_on_safe_name() {
    assert_eq!(rename_decision("New.mp3".to_string(), "new.MP3"), None);
    assert_eq!(rename_decision("New.mp3".to_string(), "Old.mp3"), Some("New.mp3".to_string()));
}
