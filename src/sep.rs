//! The separators that split file stems, artist lists and feature clauses.
//!
//! Each separator is a small pattern over characters; a text is cut at the
//! leftmost place where the pattern matches, and matching resumes after it.

use vstd::prelude::*;
use crate::text::{is_ws, is_space, char_eq_nocase, char_same_nocase, slice_string, chars_of};

verus! {

/// The separator patterns.
#[derive(Clone, Copy, PartialEq, Eq, Debug)]
pub enum Sep {
    /// `-` or `–` with white space on both sides: "Artist - Title".
    Primary,
    /// Looser forms: `-` or `–` with white space on one side, or `—`, `::`
    /// and `~` with white space on both sides.
    Fallback,
    /// Between names: ", ", "; ", " and ", " & ", " + ", " x ", " X ", or NUL.
    Artist,
    /// An inline feature marker: optional comma, white space, "feat", "feat.",
    /// "ft", "ft." or a similar contraction in any case, white space.
    Feat,
    /// An opening bracket, optional white space, then a feature marker word
    /// and white space: "(feat. ", "[ft ".
    FeatEnd,
}

pub open spec fn at(s: Seq<char>, i: int, c: char) -> bool {
    0 <= i < s.len() && s[i] == c
}

pub open spec fn ws_at(s: Seq<char>, i: int) -> bool {
    0 <= i < s.len() && is_ws(s[i])
}

pub open spec fn nc_at(s: Seq<char>, i: int, c: char) -> bool {
    0 <= i < s.len() && char_eq_nocase(s[i], c)
}

/// End of a feature marker word with its trailing white space, starting at
/// `j`; `j` itself where there is none.
pub open spec fn feat_tail(s: Seq<char>, j: int) -> int {
    if nc_at(s, j, 'f') {
        let j2 = if nc_at(s, j + 1, 'e') { j + 2 } else { j + 1 };
        let j3 = if nc_at(s, j2, 'a') { j2 + 1 } else { j2 };
        if nc_at(s, j3, 't') {
            let j5 = if at(s, j3 + 1, '.') { j3 + 2 } else { j3 + 1 };
            if ws_at(s, j5) { j5 + 1 } else { j }
        } else {
            j
        }
    } else {
        j
    }
}

/// First index at or after `j` that is not white space.
pub open spec fn ws_run_end(s: Seq<char>, j: int) -> int
    decreases s.len() - j,
{
    if 0 <= j < s.len() && is_ws(s[j]) {
        ws_run_end(s, j + 1)
    } else {
        j
    }
}

/// Length of the match of `k` that starts at `i`, or 0.
pub open spec fn sep_len(k: Sep, s: Seq<char>, i: int) -> int {
    match k {
        Sep::Primary => {
            if ws_at(s, i) && (at(s, i + 1, '-') || at(s, i + 1, '–')) && ws_at(s, i + 2) {
                3
            } else {
                0
            }
        },
        Sep::Fallback => {
            if (ws_at(s, i) && at(s, i + 1, '-')) || (at(s, i, '-') && ws_at(s, i + 1)) || (ws_at(
                s,
                i,
            ) && at(s, i + 1, '–')) || (at(s, i, '–') && ws_at(s, i + 1)) {
                2
            } else if ws_at(s, i) && at(s, i + 1, '—') && ws_at(s, i + 2) {
                3
            } else if ws_at(s, i) && at(s, i + 1, ':') && at(s, i + 2, ':') && ws_at(s, i + 3) {
                4
            } else if ws_at(s, i) && at(s, i + 1, '~') && ws_at(s, i + 2) {
                3
            } else {
                0
            }
        },
        Sep::Artist => {
            if (at(s, i, ',') || at(s, i, ';')) && ws_at(s, i + 1) {
                2
            } else if ws_at(s, i) && at(s, i + 1, 'a') && at(s, i + 2, 'n') && at(s, i + 3, 'd')
                && ws_at(s, i + 4) {
                5
            } else if ws_at(s, i) && (at(s, i + 1, '&') || at(s, i + 1, '+') || at(s, i + 1, 'x')
                || at(s, i + 1, 'X')) && ws_at(s, i + 2) {
                3
            } else if at(s, i, '\0') {
                1
            } else {
                0
            }
        },
        Sep::Feat => {
            let j = if at(s, i, ',') { i + 1 } else { i };
            if ws_at(s, j) && feat_tail(s, j + 1) > j + 1 {
                feat_tail(s, j + 1) - i
            } else {
                0
            }
        },
        Sep::FeatEnd => {
            if at(s, i, '(') || at(s, i, '[') || at(s, i, '{') {
                let j = ws_run_end(s, i + 1);
                if feat_tail(s, j) > j { feat_tail(s, j) - i } else { 0 }
            } else {
                0
            }
        },
    }
}

/// A match of `k` at `i` that lies inside `s`.
pub open spec fn matches_at(k: Sep, s: Seq<char>, i: int) -> bool {
    0 < sep_len(k, s, i) <= s.len() - i
}

/// Leftmost match of `k` at or after `i`.
pub open spec fn find_sep(k: Sep, s: Seq<char>, i: int) -> Option<int>
    decreases s.len() - i,
{
    if i < 0 || i >= s.len() {
        None
    } else if matches_at(k, s, i) {
        Some(i)
    } else {
        find_sep(k, s, i + 1)
    }
}

/// The pieces between the matches of `k`, scanning from `i`, with the
/// current piece begun at `start`.
pub open spec fn split_from(k: Sep, s: Seq<char>, start: int, i: int) -> Seq<Seq<char>>
    decreases s.len() - i,
{
    if i < 0 || i >= s.len() {
        seq![s.subrange(start, s.len() as int)]
    } else if matches_at(k, s, i) {
        let e = i + sep_len(k, s, i);
        seq![s.subrange(start, i)].add(split_from(k, s, e, e))
    } else {
        split_from(k, s, start, i + 1)
    }
}

/// `s` cut at every match of `k`, as a regex `split` gives it.
pub open spec fn split_all(k: Sep, s: Seq<char>) -> Seq<Seq<char>> {
    split_from(k, s, 0, 0)
}

/// `s` cut at the first match of `k`, if any, as a regex `splitn(s, 2)` gives
/// it.
pub open spec fn split_first(k: Sep, s: Seq<char>) -> Option<(Seq<char>, Seq<char>)> {
    match find_sep(k, s, 0) {
        Some(m) => Some((s.subrange(0, m), s.subrange(m + sep_len(k, s, m), s.len() as int))),
        None => None,
    }
}

fn ch_at(cs: &Vec<char>, i: usize, c: char) -> (r: bool)
    ensures
        r == at(cs@, i as int, c),
{
    i < cs.len() && cs[i] == c
}

fn space_at(cs: &Vec<char>, i: usize) -> (r: bool)
    ensures
        r == ws_at(cs@, i as int),
{
    i < cs.len() && is_space(cs[i])
}

fn nocase_at(cs: &Vec<char>, i: usize, c: char) -> (r: bool)
    ensures
        r == nc_at(cs@, i as int, c),
{
    i < cs.len() && char_same_nocase(cs[i], c)
}

fn feat_tail_at(cs: &Vec<char>, j: usize) -> (r: usize)
    requires
        j <= cs@.len(),
    ensures
        r as int == feat_tail(cs@, j as int),
        j <= r <= cs@.len(),
{
    let n = cs.len();
    if !nocase_at(cs, j, 'f') {
        return j;
    }
    let j2 = if j + 1 < n && nocase_at(cs, j + 1, 'e') { j + 2 } else { j + 1 };
    let j3 = if nocase_at(cs, j2, 'a') { j2 + 1 } else { j2 };
    if !nocase_at(cs, j3, 't') {
        return j;
    }
    let j5 = if j3 + 1 < n && ch_at(cs, j3 + 1, '.') { j3 + 2 } else { j3 + 1 };
    if space_at(cs, j5) { j5 + 1 } else { j }
}

fn ws_run_end_at(cs: &Vec<char>, j: usize) -> (r: usize)
    requires
        j <= cs@.len(),
    ensures
        r as int == ws_run_end(cs@, j as int),
        j <= r <= cs@.len(),
{
    let mut e = j;
    while e < cs.len() && is_space(cs[e])
        invariant
            j <= e <= cs@.len(),
            ws_run_end(cs@, j as int) == ws_run_end(cs@, e as int),
        decreases cs@.len() - e,
    {
        e = e + 1;
    }
    e
}

/// Length of the match of `k` at `i`, or 0.
pub fn sep_len_at(k: Sep, cs: &Vec<char>, i: usize) -> (r: usize)
    requires
        i < cs@.len(),
    ensures
        r as int == sep_len(k, cs@, i as int),
{
    let n = cs.len();
    match k {
        Sep::Primary => {
            if space_at(cs, i) && (ch_at(cs, i + 1, '-') || ch_at(cs, i + 1, '–')) && n - i > 2
                && space_at(cs, i + 2) {
                3
            } else {
                0
            }
        },
        Sep::Fallback => {
            let w0 = space_at(cs, i);
            let w1 = space_at(cs, i + 1);
            if (w0 && ch_at(cs, i + 1, '-')) || (ch_at(cs, i, '-') && w1) || (w0 && ch_at(
                cs,
                i + 1,
                '–',
            )) || (ch_at(cs, i, '–') && w1) {
                2
            } else if w0 && ch_at(cs, i + 1, '—') && n - i > 2 && space_at(cs, i + 2) {
                3
            } else if w0 && ch_at(cs, i + 1, ':') && n - i > 2 && ch_at(cs, i + 2, ':') && n - i > 3
                && space_at(cs, i + 3) {
                4
            } else if w0 && ch_at(cs, i + 1, '~') && n - i > 2 && space_at(cs, i + 2) {
                3
            } else {
                0
            }
        },
        Sep::Artist => {
            if (ch_at(cs, i, ',') || ch_at(cs, i, ';')) && space_at(cs, i + 1) {
                2
            } else if space_at(cs, i) && ch_at(cs, i + 1, 'a') && n - i > 2 && ch_at(cs, i + 2, 'n')
                && n - i > 3 && ch_at(cs, i + 3, 'd') && n - i > 4 && space_at(cs, i + 4) {
                5
            } else if space_at(cs, i) && (ch_at(cs, i + 1, '&') || ch_at(cs, i + 1, '+') || ch_at(
                cs,
                i + 1,
                'x',
            ) || ch_at(cs, i + 1, 'X')) && n - i > 2 && space_at(cs, i + 2) {
                3
            } else if ch_at(cs, i, '\0') {
                1
            } else {
                0
            }
        },
        Sep::Feat => {
            let j = if ch_at(cs, i, ',') { i + 1 } else { i };
            if space_at(cs, j) {
                let e = feat_tail_at(cs, j + 1);
                if e > j + 1 { e - i } else { 0 }
            } else {
                0
            }
        },
        Sep::FeatEnd => {
            if ch_at(cs, i, '(') || ch_at(cs, i, '[') || ch_at(cs, i, '{') {
                let j = ws_run_end_at(cs, i + 1);
                let e = feat_tail_at(cs, j);
                if e > j { e - i } else { 0 }
            } else {
                0
            }
        },
    }
}

/// Leftmost match of `k` at or after `from`, with its length.
pub fn find_sep_from(k: Sep, cs: &Vec<char>, from: usize) -> (r: Option<(usize, usize)>)
    requires
        from <= cs@.len(),
    ensures
        match r {
            Some((m, l)) => find_sep(k, cs@, from as int) == Some(m as int) && l as int == sep_len(
                k,
                cs@,
                m as int,
            ) && from <= m && 0 < l <= cs@.len() - m,
            None => find_sep(k, cs@, from as int) is None,
        },
{
    let n = cs.len();
    let mut i = from;
    while i < n
        invariant
            n == cs@.len(),
            from <= i <= n,
            find_sep(k, cs@, from as int) == find_sep(k, cs@, i as int),
        decreases n - i,
    {
        let l = sep_len_at(k, cs, i);
        if 0 < l && l <= n - i {
            return Some((i, l));
        }
        i = i + 1;
    }
    None
}

/// `s` cut at the first match of `k`, if any.
pub fn split_first_of(k: Sep, s: &str) -> (r: Option<(String, String)>)
    ensures
        match split_first(k, s@) {
            Some((a, b)) => r matches Some((x, y)) && x@ == a && y@ == b,
            None => r is None,
        },
{
    let cs = chars_of(s);
    match find_sep_from(k, &cs, 0) {
        Some((m, l)) => Some((slice_string(s, 0, m), slice_string(s, m + l, cs.len()))),
        None => None,
    }
}

/// The pieces of `s` between the matches of `k`.
pub fn split_all_of(k: Sep, s: &str) -> (r: Vec<String>)
    ensures
        r@.len() == split_all(k, s@).len(),
        forall|j: int| 0 <= j < r@.len() ==> (#[trigger] r@[j])@ == split_all(k, s@)[j],
{
    let cs = chars_of(s);
    let n = cs.len();
    let mut r: Vec<String> = Vec::new();
    let mut start: usize = 0;
    let mut i: usize = 0;
    while i < n
        invariant
            n == cs@.len(),
            cs@ == s@,
            start <= i <= n,
            forall|j: int| 0 <= j < r@.len() ==> (#[trigger] r@[j])@ == split_all(k, s@)[j],
            split_all(k, s@) == r@.map_values(|x: String| x@).add(
                split_from(k, s@, start as int, i as int),
            ),
        decreases n - i,
    {
        let l = sep_len_at(k, &cs, i);
        if 0 < l && l <= n - i {
            let piece = slice_string(s, start, i);
            proof {
                let rest = split_from(k, s@, (i + l) as int, (i + l) as int);
                assert(split_from(k, s@, start as int, i as int) == seq![piece@].add(rest));
                assert(r@.push(piece).map_values(|x: String| x@) =~= r@.map_values(
                    |x: String| x@,
                ).push(piece@));
                assert(r@.map_values(|x: String| x@).add(seq![piece@].add(rest)) =~= r@.push(
                    piece,
                ).map_values(|x: String| x@).add(rest));
            }
            r.push(piece);
            i = i + l;
            start = i;
        } else {
            i = i + 1;
        }
    }
    let piece = slice_string(s, start, n);
    proof {
        assert(split_from(k, s@, start as int, i as int) == seq![piece@]);
        assert(r@.push(piece).map_values(|x: String| x@) =~= r@.map_values(|x: String| x@).push(
            piece@,
        ));
    }
    r.push(piece);
    r
}

/// Past a leftmost search that found nothing, nothing matches.
pub proof fn lemma_find_none(k: Sep, s: Seq<char>, i: int, j: int)
    requires
        0 <= i <= j < s.len(),
        find_sep(k, s, i) is None,
    ensures
        !matches_at(k, s, j),
    decreases j - i,
{
    if i < j {
        lemma_find_none(k, s, i + 1, j);
    }
}

/// The leftmost search finds the first place that matches.
pub proof fn lemma_find_first(k: Sep, s: Seq<char>, i: int, m: int)
    requires
        0 <= i <= m < s.len(),
        matches_at(k, s, m),
        forall|j: int| i <= j < m ==> !#[trigger] matches_at(k, s, j),
    ensures
        find_sep(k, s, i) == Some(m),
    decreases m - i,
{
    if i < m {
        lemma_find_first(k, s, i + 1, m);
    }
}

/// With no match from `i` on, the current piece runs to the end.
pub proof fn lemma_split_rest(k: Sep, s: Seq<char>, start: int, i: int)
    requires
        0 <= start <= i <= s.len(),
        forall|j: int| i <= j < s.len() ==> !#[trigger] matches_at(k, s, j),
    ensures
        split_from(k, s, start, i) == seq![s.subrange(start, s.len() as int)],
    decreases s.len() - i,
{
    if i < s.len() {
        lemma_split_rest(k, s, start, i + 1);
    }
}

/// The current piece ends at the next match.
pub proof fn lemma_split_at(k: Sep, s: Seq<char>, start: int, i: int, m: int)
    requires
        0 <= start <= i <= m < s.len(),
        matches_at(k, s, m),
        forall|j: int| i <= j < m ==> !#[trigger] matches_at(k, s, j),
    ensures
        split_from(k, s, start, i) == seq![s.subrange(start, m)].add(
            split_from(k, s, m + sep_len(k, s, m), m + sep_len(k, s, m)),
        ),
    decreases m - i,
{
    if i < m {
        lemma_split_at(k, s, start, i + 1, m);
    }
}

/// A text with no match is one piece.
pub proof fn lemma_split_whole(k: Sep, s: Seq<char>)
    requires
        find_sep(k, s, 0) is None,
    ensures
        split_all(k, s) == seq![s],
{
    assert forall|j: int| 0 <= j < s.len() implies !#[trigger] matches_at(k, s, j) by {
        lemma_find_none(k, s, 0, j);
    }
    lemma_split_rest(k, s, 0, 0);
    assert(s.subrange(0, s.len() as int) =~= s);
}

} // verus!
