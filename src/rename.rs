//! Canonical file names: the parts of the metadata that a format asks for,
//! joined by " - ", made safe for the file system.

use vstd::prelude::*;
use crate::text::{eq_nocase, same_nocase};
use crate::meta::{TrackMeta, MetaView, DEFAULT_TITLE};

verus! {

/// Names joined by ", ".
pub open spec fn join_names(ns: Seq<Seq<char>>) -> Seq<char>
    decreases ns.len(),
{
    if ns.len() == 0 {
        seq![]
    } else if ns.len() == 1 {
        ns[0]
    } else {
        join_names(ns.drop_last()) + ", "@ + ns.last()
    }
}

/// Which parts the format may use.
#[derive(Clone, Copy, Debug)]
pub struct Parts {
    pub artist: bool,
    pub album: bool,
    pub number: bool,
    pub title: bool,
}

/// `acc` followed by `piece`, with " - " between unless `first`.
pub open spec fn after(acc: Seq<char>, first: bool, piece: Seq<char>) -> Seq<char> {
    if first {
        acc + piece
    } else {
        acc + " - "@ + piece
    }
}

/// The two-digit form of the track number.
pub open spec fn number_text(v: MetaView) -> Seq<char> {
    match v.track_number {
        Some(p) => p.1,
        None => seq![],
    }
}

/// One format character applied to the stem built so far and to whether
/// the next part needs no separator. `a` artists, `A` album, `n` track number
/// (which needs no separator after it), `t` title with its features.
pub open spec fn format_step(v: MetaView, parts: Parts, st: (Seq<char>, bool), c: char) -> (
    Seq<char>,
    bool,
) {
    if c == 'a' && parts.artist {
        (after(st.0, st.1, join_names(v.artists)), false)
    } else if c == 'A' && parts.album && v.album is Some {
        (after(st.0, st.1, v.album->0), false)
    } else if c == 'n' && parts.number && v.track_number is Some {
        (after(st.0, st.1, number_text(v)), true)
    } else if c == 't' && parts.title {
        let t = match v.title {
            Some(t) => t,
            None => DEFAULT_TITLE@,
        };
        let x = after(st.0, st.1, t);
        if parts.artist && v.features.len() > 0 {
            (x + " [feat. "@ + join_names(v.features) + "]"@, false)
        } else {
            (x, false)
        }
    } else {
        st
    }
}

/// The format applied character by character.
pub open spec fn format_fold(v: MetaView, parts: Parts, format: Seq<char>) -> (Seq<char>, bool)
    decreases format.len(),
{
    if format.len() == 0 {
        (seq![], true)
    } else {
        format_step(v, parts, format_fold(v, parts, format.drop_last()), format.last())
    }
}

/// The new file name: the formatted stem and the extension, if any.
pub open spec fn formatted_name(
    v: MetaView,
    parts: Parts,
    format: Seq<char>,
    ext: Option<Seq<char>>,
) -> Seq<char> {
    let stem = format_fold(v, parts, format).0;
    match ext {
        Some(e) => stem + "."@ + e,
        None => stem,
    }
}

fn join_names_of(ns: &Vec<String>) -> (r: String)
    ensures
        r@ == join_names(ns@.map_values(|x: String| x@)),
{
    let ghost vs = ns@.map_values(|x: String| x@);
    let mut r = String::new();
    let mut i: usize = 0;
    while i < ns.len()
        invariant
            vs == ns@.map_values(|x: String| x@),
            i <= ns@.len(),
            r@ == join_names(vs.subrange(0, i as int)),
        decreases ns@.len() - i,
    {
        if i > 0 {
            r.append(", ");
        }
        r.append(ns[i].as_str());
        proof {
            let s = vs.subrange(0, i + 1);
            assert(s.drop_last() =~= vs.subrange(0, i as int));
            if i == 0 {
                assert(vs.subrange(0, 0) =~= seq![]);
                assert(r@ =~= join_names(s));
            }
        }
        i = i + 1;
    }
    assert(vs.subrange(0, ns@.len() as int) =~= vs);
    r
}

fn push_after(acc: &mut String, first: bool, piece: &str)
    ensures
        final(acc)@ == after(old(acc)@, first, piece@),
{
    if !first {
        acc.append(" - ");
    }
    acc.append(piece);
}

/// The new file name for a track: the format's parts in order, then `.` and
/// the extension, if any.
pub fn format_name(meta: &TrackMeta, parts: Parts, format: &str, ext: Option<&str>) -> (r: String)
    ensures
        r@ == formatted_name(meta@, parts, format@, match ext {
            Some(e) => Some(e@),
            None => None,
        }),
{
    let n = format.unicode_len();
    let mut acc = String::new();
    let mut first = true;
    let mut i: usize = 0;
    assert(format@.subrange(0, 0) =~= seq![]);
    while i < n
        invariant
            n == format@.len(),
            i <= n,
            (acc@, first) == format_fold(meta@, parts, format@.subrange(0, i as int)),
        decreases n - i,
    {
        let c = format.get_char(i);
        let ghost st = (acc@, first);
        if c == 'a' && parts.artist {
            let names = join_names_of(&meta.artists);
            push_after(&mut acc, first, names.as_str());
            first = false;
        } else if c == 'A' && parts.album && meta.album.is_some() {
            if let Some(al) = &meta.album {
                push_after(&mut acc, first, al.as_str());
            }
            first = false;
        } else if c == 'n' && parts.number && meta.track_number.is_some() {
            if let Some((_, p)) = &meta.track_number {
                push_after(&mut acc, first, p.as_str());
            }
            first = true;
        } else if c == 't' && parts.title {
            let t = match &meta.title {
                Some(t) => t.as_str(),
                None => DEFAULT_TITLE,
            };
            push_after(&mut acc, first, t);
            if parts.artist && meta.features.len() > 0 {
                acc.append(" [feat. ");
                let names = join_names_of(&meta.features);
                acc.append(names.as_str());
                acc.append("]");
            }
            first = false;
        }
        proof {
            assert(format@.subrange(0, i + 1).drop_last() =~= format@.subrange(0, i as int));
            assert((acc@, first) == format_step(meta@, parts, st, c));
        }
        i = i + 1;
    }
    assert(format@.subrange(0, n as int) =~= format@);
    if let Some(e) = ext {
        acc.append(".");
        acc.append(e);
    }
    acc
}

/// What `sanitise_with_options` makes of a name, with its default options
/// but `trim_more_punctuation` off.
pub uninterp spec fn sanitised(s: Seq<char>) -> Seq<char>;

/// Relies on `sanitise_file_name::sanitise_with_options`: it replaces or
/// drops what a file name may not hold; the result depends on the name alone.
#[verifier::external_body]
fn sanitise(s: &str) -> (r: String)
    ensures
        r@ == sanitised(s@),
{
    sanitise_file_name::sanitise_with_options(
        s,
        &sanitise_file_name::Options {
            trim_more_punctuation: false,
            ..sanitise_file_name::Options::DEFAULT
        },
    )
}

/// The name to rename to, given the safe new name: none where it equals the
/// current name up to ASCII case.
pub fn rename_decision(safe_name: String, current: &str) -> (r: Option<String>)
    ensures
        eq_nocase(safe_name@, current@) ==> r is None,
        !eq_nocase(safe_name@, current@) ==> r == Some(safe_name),
{
    if same_nocase(safe_name.as_str(), current) {
        None
    } else {
        Some(safe_name)
    }
}

/// The new name of a file whose name is `current`, if it differs.
pub fn plan_rename(
    meta: &TrackMeta,
    parts: Parts,
    format: &str,
    ext: Option<&str>,
    current: &str,
) -> (r: Option<String>)
    ensures
        ({
            let name = sanitised(formatted_name(meta@, parts, format@, match ext {
                Some(e) => Some(e@),
                None => None,
            }));
            &&& eq_nocase(name, current@) ==> r is None
            &&& !eq_nocase(name, current@) ==> (r matches Some(s) && s@ == name)
        }),
{
    let name = format_name(meta, parts, format, ext);
    let safe = sanitise(name.as_str());
    rename_decision(safe, current)
}

} // verus!
