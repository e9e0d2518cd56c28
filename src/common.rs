//! Small rules shared by the commands: which files count as audio, how a
//! yes/no answer reads, which patterns to expand, how a download is asked for.

use vstd::prelude::*;
use crate::text::{eq_nocase, same_nocase, trimmed, trim};

verus! {

/// The extensions of audio containers, in lower case.
pub open spec fn audio_extensions() -> Seq<Seq<char>> {
    seq![
        "3gp"@, "aa"@, "aac"@, "aax"@, "act"@, "aiff"@, "alac"@, "amr"@, "ape"@, "au"@, "awb"@,
        "dss"@, "dvf"@, "flac"@, "gsm"@, "iklax"@, "ivs"@, "m4a"@, "m4b"@, "m4p"@, "mmf"@,
        "movpkg"@, "mp3"@, "mpc"@, "msv"@, "nmf"@, "ogg"@, "opus"@, "ra"@, "raw"@, "rf64"@,
        "sln"@, "tta"@, "voc"@, "vox"@, "wav"@, "wma"@, "wv"@, "webm"@, "8svx"@, "cda"@,
    ]
}

/// `ext` is one of the audio extensions, in any ASCII case.
pub open spec fn is_audio_ext(ext: Seq<char>) -> bool {
    exists|i: int| 0 <= i < audio_extensions().len() && eq_nocase(ext, #[trigger] audio_extensions()[i])
}

fn audio_extension_list() -> (r: Vec<&'static str>)
    ensures
        r@.len() == audio_extensions().len(),
        forall|i: int| 0 <= i < r@.len() ==> (#[trigger] r@[i])@ == audio_extensions()[i],
{
    vec![
        "3gp", "aa", "aac", "aax", "act", "aiff", "alac", "amr", "ape", "au", "awb",
        "dss", "dvf", "flac", "gsm", "iklax", "ivs", "m4a", "m4b", "m4p", "mmf",
        "movpkg", "mp3", "mpc", "msv", "nmf", "ogg", "opus", "ra", "raw", "rf64",
        "sln", "tta", "voc", "vox", "wav", "wma", "wv", "webm", "8svx", "cda",
    ]
}

/// Whether a file extension names an audio container.
pub fn ext_is_audio_file(ext: &str) -> (r: bool)
    ensures
        r == is_audio_ext(ext@),
{
    let list = audio_extension_list();
    let mut i: usize = 0;
    while i < list.len()
        invariant
            i <= list@.len(),
            list@.len() == audio_extensions().len(),
            forall|j: int| 0 <= j < list@.len() ==> (#[trigger] list@[j])@ == audio_extensions()[j],
            forall|j: int| 0 <= j < i ==> !eq_nocase(ext@, #[trigger] audio_extensions()[j]),
        decreases list@.len() - i,
    {
        if same_nocase(ext, list[i]) {
            return true;
        }
        i = i + 1;
    }
    false
}

/// How a line typed at a yes/no prompt reads.
#[derive(Clone, Copy, PartialEq, Eq, Debug)]
pub enum Answer {
    Yes,
    No,
    /// Nothing was typed: ask again.
    Again,
    /// Something else was typed: taken as no.
    Invalid,
}

pub open spec fn answer_of(line: Seq<char>) -> Answer {
    let t = trim(line);
    if t == seq!['y'] || t == seq!['Y'] {
        Answer::Yes
    } else if t == seq!['n'] || t == seq!['N'] {
        Answer::No
    } else if t.len() == 0 {
        Answer::Again
    } else {
        Answer::Invalid
    }
}

/// Reads a line typed at a yes/no prompt.
pub fn read_answer(line: &str) -> (r: Answer)
    ensures
        r == answer_of(line@),
{
    let t = trimmed(line);
    let n = t.unicode_len();
    if n == 0 {
        return Answer::Again;
    }
    if n == 1 {
        let c = t.as_str().get_char(0);
        if c == 'y' || c == 'Y' {
            assert(t@ =~= seq![c]);
            return Answer::Yes;
        }
        if c == 'n' || c == 'N' {
            assert(t@ =~= seq![c]);
            return Answer::No;
        }
    }
    proof {
        if n == 1 {
            assert(t@ == seq![t@[0]]);
        }
    }
    Answer::Invalid
}

/// The patterns to expand: those given, or every file of the working
/// directory where none is.
pub fn patterns_or_all(patterns: &Vec<String>) -> (r: Vec<String>)
    ensures
        patterns@.len() == 0 ==> r@.len() == 1 && r@[0]@ == "*"@,
        patterns@.len() > 0 ==> r@.len() == patterns@.len() && forall|i: int|
            0 <= i < r@.len() ==> (#[trigger] r@[i])@ == patterns@[i]@,
{
    let mut r: Vec<String> = Vec::new();
    if patterns.len() == 0 {
        r.push(String::from_str("*"));
        return r;
    }
    let mut i: usize = 0;
    while i < patterns.len()
        invariant
            i <= patterns@.len(),
            r@.len() == i,
            forall|j: int| 0 <= j < i ==> (#[trigger] r@[j])@ == patterns@[j]@,
        decreases patterns@.len() - i,
    {
        r.push(String::from_str(patterns[i].as_str()));
        i = i + 1;
    }
    r
}

/// The output template of a download: `Artist - Title.ext`, inside a folder
/// named after the playlist for a playlist.
pub open spec fn output_template(is_playlist: bool) -> Seq<char> {
    let tail = "%(artist,creator,uploader,uploader_id|Unknown)s - %(title,track,fulltitle,webpage_url_basename|Unnamed)s.%(ext)s"@;
    if is_playlist {
        "%(playlist|Playlist)s/"@ + tail
    } else {
        tail
    }
}

/// The downloader's arguments for one URI: best audio only, with metadata
/// and thumbnail embedded.
pub open spec fn download_args_of(uri: Seq<char>, is_playlist: bool) -> Seq<Seq<char>> {
    let head = if is_playlist {
        seq!["--yes-playlist"@, "--parse-metadata"@, "%(track_number,playlist_index|)s:%(meta_track)s"@]
    } else {
        seq!["--no-playlist"@]
    };
    head + seq![
        "--embed-metadata"@,
        "--embed-thumbnail"@,
        "-f"@,
        "ba[ext=flac]/ba[ext=wav]/ba[ext=mp3]/ba"@,
        "-o"@,
        output_template(is_playlist),
        uri,
    ]
}

fn push_str_arg(args: &mut Vec<String>, s: &str)
    ensures
        final(args)@.len() == old(args)@.len() + 1,
        forall|i: int| 0 <= i < old(args)@.len() ==> final(args)@[i] == old(args)@[i],
        final(args)@[old(args)@.len() as int]@ == s@,
{
    args.push(String::from_str(s));
}

/// The arguments to hand the downloader for `uri`.
pub fn download_args(uri: &str, is_playlist: bool) -> (r: Vec<String>)
    ensures
        r@.len() == download_args_of(uri@, is_playlist).len(),
        forall|i: int| 0 <= i < r@.len() ==> (#[trigger] r@[i])@ == download_args_of(uri@, is_playlist)[i],
{
    let mut args: Vec<String> = Vec::new();
    if is_playlist {
        push_str_arg(&mut args, "--yes-playlist");
        push_str_arg(&mut args, "--parse-metadata");
        push_str_arg(&mut args, "%(track_number,playlist_index|)s:%(meta_track)s");
    } else {
        push_str_arg(&mut args, "--no-playlist");
    }
    push_str_arg(&mut args, "--embed-metadata");
    push_str_arg(&mut args, "--embed-thumbnail");
    push_str_arg(&mut args, "-f");
    push_str_arg(&mut args, "ba[ext=flac]/ba[ext=wav]/ba[ext=mp3]/ba");
    push_str_arg(&mut args, "-o");
    let mut name = if is_playlist {
        String::from_str("%(playlist|Playlist)s/")
    } else {
        String::new()
    };
    name.append("%(artist,creator,uploader,uploader_id|Unknown)s - %(title,track,fulltitle,webpage_url_basename|Unnamed)s.%(ext)s");
    args.push(name);
    push_str_arg(&mut args, uri);
    proof {
        let spec_args = download_args_of(uri@, is_playlist);
        assert(output_template(is_playlist) == args@[args@.len() - 2]@);
        assert(args@.len() == spec_args.len());
    }
    args
}

/// The string stored under `key` at the top level of the TOML document
/// `text`; none where the document does not parse or holds no string there.
pub uninterp spec fn toml_string(text: Seq<char>, key: Seq<char>) -> Option<Seq<char>>;

/// Relies on `toml::Table`'s parser (`FromStr`) and on `Map::get` and
/// `Value::as_str`: the lookup depends on the document and the key alone.
#[verifier::external_body]
fn toml_lookup(text: &str, key: &str) -> (r: Option<String>)
    ensures
        match r {
            Some(v) => toml_string(text@, key@) == Some(v@),
            None => toml_string(text@, key@) is None,
        },
{
    let table = text.parse::<toml::Table>().ok()?;
    table.get(key)?.as_str().map(String::from)
}

/// The setting `key` of a configuration file whose text is `text`, if it is
/// a string.
pub fn find_config(text: &str, key: &str) -> (r: Option<String>)
    ensures
        match r {
            Some(v) => toml_string(text@, key@) == Some(v@),
            None => toml_string(text@, key@) is None,
        },
{
    toml_lookup(text, key)
}

} // verus!
