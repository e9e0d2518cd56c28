use catty::common::{download_args, ext_is_audio_file, find_config, patterns_or_all, read_answer, Answer};

#[test]
fn audio_extensions_in_any_case() {
    assert!(ext_is_audio_file("mp3"));
    assert!(ext_is_audio_file("FLAC"));
    assert!(ext_is_audio_file("Opus"));
    assert!(ext_is_audio_file("8svx"));
    assert!(ext_is_audio_file("cda"));
    assert!(!ext_is_audio_file("txt"));
    assert!(!ext_is_audio_file("mp"));
    assert!(!ext_is_audio_file(""));
    assert!(!ext_is_audio_file("mp3 "));
}

#[test]
fn answers() {
    assert_eq!(read_answer("y\n"), Answer::Yes);
    assert_eq!(read_answer(" Y "), Answer::Yes);
    assert_eq!(read_answer("n"), Answer::No);
    assert_eq!(read_answer("N\r\n"), Answer::No);
    assert_eq!(read_answer("\n"), Answer::Again);
    assert_eq!(read_answer(""), Answer::Again);
    assert_eq!(read_answer("yes"), Answer::Invalid);
    assert_eq!(read_answer("q"), Answer::Invalid);
}

#[test]
fn no_patterns_means_everything() {
    assert_eq!(patterns_or_all(&vec![]), vec!["*".to_string()]);
    let given = vec!["a/*.mp3".to_string(), "b".to_string()];
    assert_eq!(patterns_or_all(&given), given);
}

#[test]
fn single_download_arguments() {
    let args = download_args("https://example.org/t", false);
    assert_eq!(
        args,
        vec![
            "--no-playlist",
            "--embed-metadata",
            "--embed-thumbnail",
            "-f",
            "ba[ext=flac]/ba[ext=wav]/ba[ext=mp3]/ba",
            "-o",
            "%(artist,creator,uploader,uploader_id|Unknown)s - %(title,track,fulltitle,webpage_url_basename|Unnamed)s.%(ext)s",
            "https://example.org/t",
        ]
    );
}

#[test]
fn playlist_download_arguments() {
    let args = download_args("u", true);
    assert_eq!(args.len(), 10);
    assert_eq!(args[0], "--yes-playlist");
    assert_eq!(args[1], "--parse-metadata");
    assert_eq!(args[2], "%(track_number,playlist_index|)s:%(meta_track)s");
    assert_eq!(args[8], "%(playlist|Playlist)s/%(artist,creator,uploader,uploader_id|Unknown)s - %(title,track,fulltitle,webpage_url_basename|Unnamed)s.%(ext)s");
    assert_eq!(args[9], "u");
}

#[test]
fn config_lookup() {
    let text = "yt-dlp = \"/opt/bin/yt-dlp\"\nlevel = 3\n";
    assert_eq!(find_config(text, "yt-dlp"), Some("/opt/bin/yt-dlp".to_string()));
    assert_eq!(find_config(text, "level"), None);
    assert_eq!(find_config(text, "ffmpeg"), None);
    assert_eq!(find_config("not = = toml", "not"), None);
}
