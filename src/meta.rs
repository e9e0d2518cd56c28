//! Track metadata: the aggregator that merges what tags and file names say,
//! and the names and buckets derived from it.

use vstd::prelude::*;
use crate::text::{lemma_trimmed_ends, lemma_trimmed_by_ends, trim, trim_closer, lower_of, lowercase, trimmed, chars_of, trim_closer_bound, slice_string, starts_with, same_nocase, eq_nocase};
use crate::sep::{Sep, split_first, split_all, split_first_of, split_all_of, find_sep, matches_at, sep_len, lemma_find_none, lemma_find_first, lemma_split_rest, lemma_split_at, lemma_split_whole, feat_tail};

verus! {

/// Bucket for names that start with no ASCII letter.
pub const DEFAULT_CATEGORY: &'static str = ".other";

/// Artist that stands for "no artist known".
pub const DEFAULT_AUTHOR: &'static str = "unknown";

/// Artist that stands for a track still "in development".
pub const DEFAULT_AUTHOR_ID: &'static str = "id";

/// Title used where none is known.
pub const DEFAULT_TITLE: &'static str = "untitled";

/// Metadata of one track, built once from its tags and its file name.
#[derive(Debug)]
pub struct TrackMeta {
    /// Primary artists, in the order first seen.
    pub artists: Vec<String>,
    /// Featured artists, in the order first seen.
    pub features: Vec<String>,
    pub album: Option<String>,
    pub album_author: Option<String>,
    /// The track number, and the same as two digits and a space ("05 ").
    pub track_number: Option<(usize, String)>,
    pub title: Option<String>,
    pub file_name: Option<String>,
}

/// What a `TrackMeta` holds, as sequences of characters.
pub struct MetaView {
    pub artists: Seq<Seq<char>>,
    pub features: Seq<Seq<char>>,
    pub album: Option<Seq<char>>,
    pub album_author: Option<Seq<char>>,
    pub track_number: Option<(usize, Seq<char>)>,
    pub title: Option<Seq<char>>,
    pub file_name: Option<Seq<char>>,
}

pub open spec fn names(v: Seq<String>) -> Seq<Seq<char>> {
    v.map_values(|x: String| x@)
}

pub open spec fn opt_chars(o: Option<String>) -> Option<Seq<char>> {
    match o {
        Some(s) => Some(s@),
        None => None,
    }
}

impl View for TrackMeta {
    type V = MetaView;

    open spec fn view(&self) -> MetaView {
        MetaView {
            artists: names(self.artists@),
            features: names(self.features@),
            album: opt_chars(self.album),
            album_author: opt_chars(self.album_author),
            track_number: match self.track_number {
                Some((n, s)) => Some((n, s@)),
                None => None,
            },
            title: opt_chars(self.title),
            file_name: opt_chars(self.file_name),
        }
    }
}

/// Some registered name, in either role, has the lower-case form `low`.
pub open spec fn known(v: MetaView, low: Seq<char>) -> bool {
    (exists|i: int| 0 <= i < v.artists.len() && lower_of(#[trigger] v.artists[i]) == low) || (
    exists|j: int| 0 <= j < v.features.len() && lower_of(#[trigger] v.features[j]) == low)
}

/// No two registered names, in either role, share a lower-case form.
pub open spec fn distinct_names(v: MetaView) -> bool {
    &&& forall|i: int, j: int|
        0 <= i < j < v.artists.len() ==> lower_of(#[trigger] v.artists[i]) != lower_of(
            #[trigger] v.artists[j],
        )
    &&& forall|i: int, j: int|
        0 <= i < j < v.features.len() ==> lower_of(#[trigger] v.features[i]) != lower_of(
            #[trigger] v.features[j],
        )
    &&& forall|i: int, j: int|
        0 <= i < v.artists.len() && 0 <= j < v.features.len() ==> lower_of(
            #[trigger] v.artists[i],
        ) != lower_of(#[trigger] v.features[j])
}

/// `name`, trimmed, added as an artist (or a feature) unless it is empty or
/// some registered name has its lower-case form.
pub open spec fn register(v: MetaView, name: Seq<char>, feature: bool) -> MetaView {
    let t = trim(name);
    if t.len() == 0 || known(v, lower_of(t)) {
        v
    } else if feature {
        MetaView { features: v.features.push(t), ..v }
    } else {
        MetaView { artists: v.artists.push(t), ..v }
    }
}

/// `register` applied to each name in turn.
pub open spec fn register_all(v: MetaView, ns: Seq<Seq<char>>, feature: bool) -> MetaView
    decreases ns.len(),
{
    if ns.len() == 0 {
        v
    } else {
        register_all(register(v, ns[0], feature), ns.drop_first(), feature)
    }
}

/// The effect of an artist text: an inline feature marker splits it into
/// primary artists and featured ones; the features are registered first.
pub open spec fn with_artist(v: MetaView, text: Seq<char>) -> MetaView {
    let t = trim(text);
    if t.len() == 0 {
        v
    } else {
        match split_first(Sep::Feat, t) {
            Some(p) => register_all(
                register_all(v, split_all(Sep::Artist, trim(p.1)), true),
                split_all(Sep::Artist, trim(p.0)),
                false,
            ),
            None => register_all(v, split_all(Sep::Artist, trim(t)), false),
        }
    }
}

/// A title with its bracketed feature clause cut off, and the features that
/// the clause names registered.
pub open spec fn with_title(v: MetaView, text: Seq<char>) -> MetaView {
    let t = trim(text);
    if t.len() == 0 {
        v
    } else {
        match split_first(Sep::FeatEnd, t) {
            Some(p) => {
                let w = register_all(v, split_all(Sep::Artist, trim_closer(trim(p.1))), true);
                MetaView { title: if v.title is None { Some(trim(p.0)) } else { v.title }, ..w }
            },
            None => MetaView { title: if v.title is None { Some(trim(t)) } else { v.title }, ..v },
        }
    }
}

/// The first non-empty trimmed value wins.
pub open spec fn first_wins(cur: Option<Seq<char>>, text: Seq<char>) -> Option<Seq<char>> {
    if cur is None && trim(text).len() > 0 {
        Some(trim(text))
    } else {
        cur
    }
}

pub open spec fn with_album(v: MetaView, text: Seq<char>) -> MetaView {
    MetaView { album: first_wins(v.album, text), ..v }
}

pub open spec fn with_album_author(v: MetaView, text: Seq<char>) -> MetaView {
    MetaView { album_author: first_wins(v.album_author, text), ..v }
}

pub open spec fn digit(d: int) -> char {
    if d == 0 { '0' } else if d == 1 { '1' } else if d == 2 { '2' } else if d == 3 { '3' }
    else if d == 4 { '4' } else if d == 5 { '5' } else if d == 6 { '6' } else if d == 7 { '7' }
    else if d == 8 { '8' } else { '9' }
}

/// Decimal digits of `n`.
pub open spec fn decimal(n: nat) -> Seq<char>
    decreases n,
{
    if n < 10 {
        seq![digit(n as int)]
    } else {
        decimal(n / 10).push(digit((n % 10) as int))
    }
}

/// `n` padded with zeros to two digits and followed by a space.
pub open spec fn number_prefix(n: nat) -> Seq<char> {
    let d = decimal(n);
    (if d.len() < 2 { seq!['0'] + d } else { d }).push(' ')
}

pub open spec fn with_track_number(v: MetaView, n: usize) -> MetaView {
    if v.track_number is None {
        MetaView { track_number: Some((n, number_prefix(n as nat))), ..v }
    } else {
        v
    }
}

pub open spec fn with_file_name(v: MetaView, name: Seq<char>) -> MetaView {
    if v.file_name is None {
        MetaView { file_name: Some(name), ..v }
    } else {
        v
    }
}

pub open spec fn empty_view() -> MetaView {
    MetaView {
        artists: seq![],
        features: seq![],
        album: None,
        album_author: None,
        track_number: None,
        title: None,
        file_name: None,
    }
}

/// The name that files of this track are filed under: the album author, else
/// the first artist when there are several, else the only artist unless it
/// is a placeholder.
pub open spec fn author_of(v: MetaView) -> Option<Seq<char>> {
    if v.album_author is Some {
        v.album_author
    } else if v.artists.len() > 1 {
        Some(v.artists[0])
    } else if v.artists.len() == 1 && !eq_nocase(v.artists[0], DEFAULT_AUTHOR@) && !eq_nocase(
        v.artists[0],
        DEFAULT_AUTHOR_ID@,
    ) {
        Some(v.artists[0])
    } else {
        None
    }
}

pub open spec fn band(c: char, lo: char, hi: char) -> bool {
    let u = c as u32;
    (lo as u32 <= u && u <= hi as u32) || (lo as u32 + 32 <= u && u <= hi as u32 + 32)
}

/// The bucket of an author name, by its first character.
pub open spec fn category_of(author: Seq<char>) -> Seq<char> {
    if author.len() == 0 {
        DEFAULT_CATEGORY@
    } else if band(author[0], 'A', 'F') {
        "A-F"@
    } else if band(author[0], 'G', 'K') {
        "G-K"@
    } else if band(author[0], 'L', 'P') {
        "L-P"@
    } else if band(author[0], 'Q', 'U') {
        "Q-U"@
    } else if band(author[0], 'V', 'Z') {
        "V-Z"@
    } else {
        DEFAULT_CATEGORY@
    }
}

fn in_band(c: char, lo: char, hi: char) -> (r: bool)
    requires
        hi as u32 + 32 <= 0x7f,
    ensures
        r == band(c, lo, hi),
{
    let u = c as u32;
    (lo as u32 <= u && u <= hi as u32) || (lo as u32 + 32 <= u && u <= hi as u32 + 32)
}

/// The top-level folder for an author: five alphabetic bands, and a bucket
/// for the rest.
pub fn get_category_name(author: &str) -> (r: &'static str)
    ensures
        r@ == category_of(author@),
{
    if author.unicode_len() == 0 {
        return DEFAULT_CATEGORY;
    }
    let c = author.get_char(0);
    if in_band(c, 'A', 'F') {
        "A-F"
    } else if in_band(c, 'G', 'K') {
        "G-K"
    } else if in_band(c, 'L', 'P') {
        "L-P"
    } else if in_band(c, 'Q', 'U') {
        "Q-U"
    } else if in_band(c, 'V', 'Z') {
        "V-Z"
    } else {
        DEFAULT_CATEGORY
    }
}

fn digit_str(d: usize) -> (r: &'static str)
    requires
        d < 10,
    ensures
        r@ == seq![digit(d as int)],
{
    proof {
        reveal_strlit("0");
        reveal_strlit("1");
        reveal_strlit("2");
        reveal_strlit("3");
        reveal_strlit("4");
        reveal_strlit("5");
        reveal_strlit("6");
        reveal_strlit("7");
        reveal_strlit("8");
        reveal_strlit("9");
    }
    if d == 0 { "0" } else if d == 1 { "1" } else if d == 2 { "2" } else if d == 3 { "3" }
    else if d == 4 { "4" } else if d == 5 { "5" } else if d == 6 { "6" } else if d == 7 { "7" }
    else if d == 8 { "8" } else { "9" }
}

/// Appends the decimal digits of `n` to `out`.
fn push_decimal(out: &mut String, n: usize)
    ensures
        final(out)@ == old(out)@ + decimal(n as nat),
    decreases n,
{
    if n < 10 {
        out.append(digit_str(n));
        assert(out@ =~= old(out)@ + decimal(n as nat));
    } else {
        push_decimal(out, n / 10);
        out.append(digit_str(n % 10));
        assert(out@ =~= old(out)@ + decimal(n as nat));
    }
}

/// `n` as two or more digits and a space.
fn number_prefix_of(n: usize) -> (r: String)
    ensures
        r@ == number_prefix(n as nat),
{
    let mut out = String::new();
    if n < 10 {
        out.append(digit_str(0));
    }
    push_decimal(&mut out, n);
    proof {
        reveal_strlit(" ");
        reveal_with_fuel(decimal, 2);
    }
    out.append(" ");
    assert(out@ =~= number_prefix(n as nat));
    out
}

/// A stem cut into a leading segment and the rest: at the first primary
/// separator, else at the first fallback separator of the trimmed stem; both
/// parts are then trimmed. A stem with neither comes back as it is.
pub open spec fn split_stem(s: Seq<char>) -> (Option<Seq<char>>, Seq<char>) {
    match split_first(Sep::Primary, s) {
        Some(p) => (Some(trim(p.0)), trim(p.1)),
        None => match split_first(Sep::Fallback, trim(s)) {
            Some(p) => (Some(trim(p.0)), trim(p.1)),
            None => (None, s),
        },
    }
}

/// Cuts a file stem into an optional leading segment (most often the artist)
/// and the rest.
pub fn stem_split(stem: &str) -> (r: (Option<String>, String))
    ensures
        opt_chars(r.0) == split_stem(stem@).0,
        r.1@ == split_stem(stem@).1,
{
    match split_first_of(Sep::Primary, stem) {
        Some((a, b)) => (Some(trimmed(a.as_str())), trimmed(b.as_str())),
        None => {
            let t = trimmed(stem);
            match split_first_of(Sep::Fallback, t.as_str()) {
                Some((a, b)) => (Some(trimmed(a.as_str())), trimmed(b.as_str())),
                None => (None, String::from_str(stem)),
            }
        },
    }
}

fn trimmed_opt(s: &str) -> (r: Option<String>)
    ensures
        trim(s@).len() == 0 ==> r is None,
        trim(s@).len() > 0 ==> (r matches Some(t) && t@ == trim(s@)),
{
    let t = trimmed(s);
    if t.unicode_len() == 0 {
        None
    } else {
        Some(t)
    }
}

/// Registering names changes nothing but the two lists of names.
pub proof fn lemma_register_all_keeps(v: MetaView, ns: Seq<Seq<char>>, feature: bool)
    ensures
        ({
            let w = register_all(v, ns, feature);
            &&& w.album == v.album
            &&& w.album_author == v.album_author
            &&& w.track_number == v.track_number
            &&& w.title == v.title
            &&& w.file_name == v.file_name
        }),
    decreases ns.len(),
{
    if ns.len() > 0 {
        lemma_register_all_keeps(register(v, ns[0], feature), ns.drop_first(), feature);
    }
}

impl TrackMeta {
    /// No two names share a lower-case form.
    pub open spec fn wf(&self) -> bool {
        distinct_names(self@)
    }

    /// An aggregator that holds nothing yet.
    pub fn new() -> (r: TrackMeta)
        ensures
            r@ == empty_view(),
            r.wf(),
    {
        let r = TrackMeta {
            artists: Vec::new(),
            features: Vec::new(),
            album: None,
            album_author: None,
            track_number: None,
            title: None,
            file_name: None,
        };
        assert(r@.artists =~= seq![]);
        assert(r@.features =~= seq![]);
        r
    }

    /// Registers a name as an artist, or as a feature; tells whether it was
    /// new.
    pub fn add_artist(&mut self, name: &str, feature: bool) -> (r: bool)
        requires
            old(self).wf(),
        ensures
            final(self)@ == register(old(self)@, name@, feature),
            final(self).wf(),
            r == !(trim(name@).len() == 0 || known(old(self)@, lower_of(trim(name@)))),
    {
        let t = trimmed(name);
        if t.unicode_len() == 0 {
            return false;
        }
        let low = lowercase(t.as_str());
        let mut i: usize = 0;
        while i < self.artists.len()
            invariant
                self == old(self),
                old(self).wf(),
                t@ == trim(name@),
                t@.len() > 0,
                low@ == lower_of(t@),
                i <= self.artists@.len(),
                forall|j: int| 0 <= j < i ==> lower_of(#[trigger] self@.artists[j]) != low@,
            decreases self.artists@.len() - i,
        {
            let a = lowercase(self.artists[i].as_str());
            if a == low {
                assert(self@.artists[i as int] == self.artists@[i as int]@);
                assert(known(old(self)@, lower_of(t@)));
                return false;
            }
            i = i + 1;
        }
        let mut i: usize = 0;
        while i < self.features.len()
            invariant
                self == old(self),
                old(self).wf(),
                t@ == trim(name@),
                t@.len() > 0,
                low@ == lower_of(t@),
                i <= self.features@.len(),
                forall|j: int| 0 <= j < self@.artists.len() ==> lower_of(#[trigger] self@.artists[j]) != low@,
                forall|j: int| 0 <= j < i ==> lower_of(#[trigger] self@.features[j]) != low@,
            decreases self.features@.len() - i,
        {
            let a = lowercase(self.features[i].as_str());
            if a == low {
                assert(self@.features[i as int] == self.features@[i as int]@);
                assert(known(old(self)@, lower_of(t@)));
                return false;
            }
            i = i + 1;
        }
        proof {
            assert(!known(old(self)@, lower_of(t@)));
        }
        if feature {
            self.features.push(t);
            assert(names(self.features@) =~= names(old(self).features@).push(t@));
        } else {
            self.artists.push(t);
            assert(names(self.artists@) =~= names(old(self).artists@).push(t@));
        }
        assert(self@ == register(old(self)@, name@, feature));
        true
    }

    /// Registers each name in turn.
    pub fn add_artists(&mut self, ns: &Vec<String>, feature: bool)
        requires
            old(self).wf(),
        ensures
            final(self)@ == register_all(old(self)@, names(ns@), feature),
            final(self).wf(),
    {
        let mut i: usize = 0;
        assert(names(ns@).subrange(0, ns@.len() as int) =~= names(ns@));
        while i < ns.len()
            invariant
                self.wf(),
                i <= ns@.len(),
                register_all(old(self)@, names(ns@), feature) == register_all(
                    self@,
                    names(ns@).subrange(i as int, ns@.len() as int),
                    feature,
                ),
            decreases ns@.len() - i,
        {
            let ghost rest = names(ns@).subrange(i as int, ns@.len() as int);
            assert(rest.drop_first() =~= names(ns@).subrange(i + 1, ns@.len() as int));
            self.add_artist(ns[i].as_str(), feature);
            i = i + 1;
        }
        assert(names(ns@).subrange(i as int, ns@.len() as int) =~= seq![]);
    }

    /// Takes in an artist text: "A, B feat. C" registers C as a feature,
    /// then A and B as artists.
    pub fn from_artist(&mut self, artists: &str)
        requires
            old(self).wf(),
        ensures
            final(self)@ == with_artist(old(self)@, artists@),
            final(self).wf(),
    {
        let t = trimmed(artists);
        if t.unicode_len() == 0 {
            return;
        }
        match split_first_of(Sep::Feat, t.as_str()) {
            Some((a, f)) => {
                let ft = trimmed(f.as_str());
                let fs = split_all_of(Sep::Artist, ft.as_str());
                assert(names(fs@) =~= split_all(Sep::Artist, ft@));
                self.add_artists(&fs, true);
                let at = trimmed(a.as_str());
                let xs = split_all_of(Sep::Artist, at.as_str());
                assert(names(xs@) =~= split_all(Sep::Artist, at@));
                self.add_artists(&xs, false);
            },
            None => {
                let at = trimmed(t.as_str());
                let xs = split_all_of(Sep::Artist, at.as_str());
                assert(names(xs@) =~= split_all(Sep::Artist, at@));
                self.add_artists(&xs, false);
            },
        }
    }

    /// Takes in a title: a bracketed feature clause is cut off and the
    /// features it names registered; the rest is the title, if none was set.
    pub fn from_title(&mut self, title: &str)
        requires
            old(self).wf(),
        ensures
            final(self)@ == with_title(old(self)@, title@),
            final(self).wf(),
    {
        let t = trimmed(title);
        if t.unicode_len() == 0 {
            return;
        }
        match split_first_of(Sep::FeatEnd, t.as_str()) {
            Some((a, f)) => {
                let ft = trimmed(f.as_str());
                let cs = chars_of(ft.as_str());
                let e = trim_closer_bound(&cs, 0, cs.len());
                assert(cs@.subrange(0, cs@.len() as int) =~= ft@);
                let fc = slice_string(ft.as_str(), 0, e);
                let fs = split_all_of(Sep::Artist, fc.as_str());
                assert(names(fs@) =~= split_all(Sep::Artist, fc@));
                proof {
                    lemma_register_all_keeps(old(self)@, names(fs@), true);
                }
                self.add_artists(&fs, true);
                if self.title.is_none() {
                    self.title = Some(trimmed(a.as_str()));
                }
            },
            None => {
                if self.title.is_none() {
                    self.title = Some(trimmed(t.as_str()));
                }
            },
        }
    }

    /// Sets the album, unless one is set or the text is blank.
    pub fn from_album(&mut self, album: &str)
        ensures
            final(self)@ == with_album(old(self)@, album@),
            old(self).wf() ==> final(self).wf(),
    {
        if self.album.is_none() {
            self.album = trimmed_opt(album);
        }
    }

    /// Sets the album author, unless one is set or the text is blank.
    pub fn from_album_author(&mut self, album_author: &str)
        ensures
            final(self)@ == with_album_author(old(self)@, album_author@),
            old(self).wf() ==> final(self).wf(),
    {
        if self.album_author.is_none() {
            self.album_author = trimmed_opt(album_author);
        }
    }

    /// Sets the track number and its two-digit form, unless one is set.
    pub fn from_track_number(&mut self, track_number: usize)
        ensures
            final(self)@ == with_track_number(old(self)@, track_number),
            old(self).wf() ==> final(self).wf(),
    {
        if self.track_number.is_none() {
            self.track_number = Some((track_number, number_prefix_of(track_number)));
        }
    }

    /// Sets the file name, unless one is set.
    pub fn from_file_name(&mut self, file_name: &str)
        ensures
            final(self)@ == with_file_name(old(self)@, file_name@),
            old(self).wf() ==> final(self).wf(),
    {
        if self.file_name.is_none() {
            self.file_name = Some(String::from_str(file_name));
        }
    }

    /// The name that the track is filed under, if any.
    pub fn get_author(&self) -> (r: Option<&str>)
        ensures
            match r {
                Some(a) => author_of(self@) == Some(a@),
                None => author_of(self@) is None,
            },
    {
        if let Some(a) = &self.album_author {
            return Some(a.as_str());
        }
        let n = self.artists.len();
        if n > 1 {
            return Some(self.artists[0].as_str());
        }
        if n == 1 {
            let a = self.artists[0].as_str();
            if !same_nocase(a, DEFAULT_AUTHOR) && !same_nocase(a, DEFAULT_AUTHOR_ID) {
                return Some(a);
            }
        }
        None
    }
}

/// What the tags of a file hold; all absent where they could not be read.
#[derive(Debug)]
pub struct Tags {
    pub artist: Option<String>,
    pub album_title: Option<String>,
    pub album_artist: Option<String>,
    pub track_number: Option<usize>,
    pub title: Option<String>,
}

/// The names that a file's path gives: its file name, its stem, the name of
/// its directory, and that of the directory above.
#[derive(Debug)]
pub struct FileParts {
    pub file_name: Option<String>,
    pub file_stem: Option<String>,
    pub dir_name: Option<String>,
    pub parent_dir_name: Option<String>,
}

/// Leading dashes removed.
pub open spec fn drop_dashes(s: Seq<char>) -> Seq<char>
    decreases s.len(),
{
    if s.len() > 0 && s[0] == '-' {
        drop_dashes(s.drop_first())
    } else {
        s
    }
}

/// The stem without the track-number prefix, where it starts with one.
pub open spec fn stem_without_number(stem: Seq<char>, tn: Option<(usize, Seq<char>)>) -> Seq<
    char,
> {
    match tn {
        Some(p) => if p.1.len() <= stem.len() && stem.subrange(0, p.1.len() as int) == p.1 {
            drop_dashes(trim(stem.subrange(p.1.len() as int, stem.len() as int)))
        } else {
            stem
        },
        None => stem,
    }
}

/// What the file stem contributes.
pub struct StemFacts {
    pub artist: Option<Seq<char>>,
    pub album: Option<Seq<char>>,
    pub title: Option<Seq<char>>,
    /// An album author that the directory above the album's confirms.
    pub dir_author: Option<Seq<char>>,
}

/// Album inference from the directories. Where no album tag exists and the
/// directory name matches a further leading segment of the title, that
/// segment is the album; else, where a known artist matches the directory
/// above, the directory name is the album and that artist its author.
pub open spec fn infer_album(
    v: MetaView,
    artist: Option<Seq<char>>,
    title: Seq<char>,
    tags: Tags,
    parts: FileParts,
) -> StemFacts {
    let none = StemFacts { artist, album: None, title: Some(title), dir_author: None };
    if opt_chars(tags.album_title) is None && opt_chars(parts.dir_name) is Some {
        let d = opt_chars(parts.dir_name)->0;
        let again = split_stem(title);
        if again.0 is Some && eq_nocase(again.0->0, d) {
            StemFacts { artist, album: again.0, title: Some(again.1), dir_author: None }
        } else {
            let who = if v.album_author is Some {
                v.album_author
            } else if artist is Some {
                artist
            } else {
                opt_chars(tags.artist)
            };
            let above = opt_chars(parts.parent_dir_name);
            if who is Some && above is Some && eq_nocase(who->0, above->0) {
                StemFacts { artist, album: Some(d), title: Some(title), dir_author: above }
            } else {
                none
            }
        }
    } else {
        none
    }
}

pub open spec fn stem_facts(v: MetaView, tags: Tags, parts: FileParts) -> StemFacts {
    match opt_chars(parts.file_stem) {
        None => StemFacts { artist: None, album: None, title: None, dir_author: None },
        Some(stem) => {
            let cut = split_stem(stem_without_number(stem, v.track_number));
            infer_album(v, cut.0, cut.1, tags, parts)
        },
    }
}

/// The tag title, without a leading segment that repeats a known artist.
pub open spec fn patched_title(
    title: Option<Seq<char>>,
    tag_artist: Option<Seq<char>>,
    stem_artist: Option<Seq<char>>,
) -> Option<Seq<char>> {
    match title {
        Some(t) => {
            let cut = split_stem(t);
            if cut.0 is Some && (tag_artist == cut.0 || stem_artist == cut.0) {
                Some(cut.1)
            } else {
                title
            }
        },
        None => None,
    }
}

pub open spec fn opt_album(v: MetaView, o: Option<Seq<char>>) -> MetaView {
    match o {
        Some(x) => with_album(v, x),
        None => v,
    }
}

pub open spec fn opt_album_author(v: MetaView, o: Option<Seq<char>>) -> MetaView {
    match o {
        Some(x) => with_album_author(v, x),
        None => v,
    }
}

pub open spec fn opt_title(v: MetaView, o: Option<Seq<char>>) -> MetaView {
    match o {
        Some(x) => with_title(v, x),
        None => v,
    }
}

pub open spec fn opt_artist(v: MetaView, o: Option<Seq<char>>) -> MetaView {
    match o {
        Some(x) => with_artist(v, x),
        None => v,
    }
}

/// Metadata before the file stem is read: the file name, the album author
/// and the track number from the tags.
pub open spec fn tag_view(tags: Tags, parts: FileParts) -> MetaView {
    let v1 = match opt_chars(parts.file_name) {
        Some(n) => with_file_name(empty_view(), n),
        None => empty_view(),
    };
    let v2 = opt_album_author(v1, opt_chars(tags.album_artist));
    match tags.track_number {
        Some(n) => with_track_number(v2, n),
        None => v2,
    }
}

/// The metadata of a file: albums from the tag, then from the stem; titles
/// likewise; artists from the stem, then from the tag, so that features cut
/// from titles are known before artists are registered; "unknown" where no
/// artist was found.
pub open spec fn parse_view(tags: Tags, parts: FileParts) -> MetaView {
    let v3 = tag_view(tags, parts);
    let f = stem_facts(v3, tags, parts);
    let v4 = opt_album_author(v3, f.dir_author);
    let tag_title = patched_title(opt_chars(tags.title), opt_chars(tags.artist), f.artist);
    let v5 = opt_album(opt_album(v4, opt_chars(tags.album_title)), f.album);
    let v6 = opt_title(opt_title(v5, tag_title), f.title);
    with_fallback_artist(opt_artist(opt_artist(v6, f.artist), opt_chars(tags.artist)))
}

/// Where no artist was found, the placeholder "unknown" is registered.
pub open spec fn with_fallback_artist(v: MetaView) -> MetaView {
    if v.artists.len() == 0 {
        register(v, DEFAULT_AUTHOR@, false)
    } else {
        v
    }
}

/// `s` without its leading dashes.
fn without_dashes(s: &str) -> (r: String)
    ensures
        r@ == drop_dashes(s@),
{
    let cs = chars_of(s);
    let mut a: usize = 0;
    assert(s@.subrange(0, s@.len() as int) =~= s@);
    while a < cs.len() && cs[a] == '-'
        invariant
            cs@ == s@,
            a <= cs@.len(),
            drop_dashes(s@) == drop_dashes(s@.subrange(a as int, s@.len() as int)),
        decreases cs@.len() - a,
    {
        assert(s@.subrange(a as int, s@.len() as int).drop_first() =~= s@.subrange(
            a + 1,
            s@.len() as int,
        ));
        a = a + 1;
    }
    assert(s@.subrange(0, s@.len() as int) =~= s@);
    slice_string(s, a, cs.len())
}

fn stem_without_number_of(stem: &str, tn: &Option<(usize, String)>) -> (r: String)
    ensures
        r@ == stem_without_number(
            stem@,
            match tn {
                Some((n, s)) => Some((*n, s@)),
                None => None,
            },
        ),
{
    match tn {
        Some((_, p)) => {
            if starts_with(stem, p.as_str()) {
                let rest = slice_string(stem, p.unicode_len(), stem.unicode_len());
                let t = trimmed(rest.as_str());
                without_dashes(t.as_str())
            } else {
                String::from_str(stem)
            }
        },
        None => String::from_str(stem),
    }
}

fn clone_opt(o: &Option<String>) -> (r: Option<String>)
    ensures
        opt_chars(r) == opt_chars(*o),
{
    match o {
        Some(s) => Some(String::from_str(s.as_str())),
        None => None,
    }
}

fn infer_album_of(
    meta: &TrackMeta,
    artist: Option<String>,
    title: String,
    tags: &Tags,
    parts: &FileParts,
) -> (r: (Option<String>, Option<String>, Option<String>, Option<String>))
    ensures
        ({
            let f = infer_album(meta@, opt_chars(artist), title@, *tags, *parts);
            &&& opt_chars(r.0) == f.artist
            &&& opt_chars(r.1) == f.album
            &&& opt_chars(r.2) == f.title
            &&& opt_chars(r.3) == f.dir_author
        }),
{
    if tags.album_title.is_none() {
        if let Some(d) = &parts.dir_name {
            let (again, rest) = stem_split(title.as_str());
            if let Some(a) = &again {
                if same_nocase(a.as_str(), d.as_str()) {
                    return (artist, again, Some(rest), None);
                }
            }
            let who = if meta.album_author.is_some() {
                clone_opt(&meta.album_author)
            } else if artist.is_some() {
                clone_opt(&artist)
            } else {
                clone_opt(&tags.artist)
            };
            if let (Some(w), Some(above)) = (&who, &parts.parent_dir_name) {
                if same_nocase(w.as_str(), above.as_str()) {
                    let dir = String::from_str(d.as_str());
                    return (artist, Some(dir), Some(title), clone_opt(&parts.parent_dir_name));
                }
            }
        }
    }
    (artist, None, Some(title), None)
}

fn patched_title_of(tags: &Tags, stem_artist: &Option<String>) -> (r: Option<String>)
    ensures
        opt_chars(r) == patched_title(
            opt_chars(tags.title),
            opt_chars(tags.artist),
            opt_chars(*stem_artist),
        ),
{
    match &tags.title {
        Some(t) => {
            let (a, rest) = stem_split(t.as_str());
            match &a {
                Some(x) => {
                    let by_tag = match &tags.artist {
                        Some(y) => *y == *x,
                        None => false,
                    };
                    let by_stem = match stem_artist {
                        Some(y) => *y == *x,
                        None => false,
                    };
                    if by_tag || by_stem {
                        Some(rest)
                    } else {
                        clone_opt(&tags.title)
                    }
                },
                None => clone_opt(&tags.title),
            }
        },
        None => None,
    }
}

/// Infers the metadata of a file from its tags and the names in its path.
pub fn parse(tags: &Tags, parts: &FileParts) -> (r: TrackMeta)
    ensures
        r@ == parse_view(*tags, *parts),
        r.wf(),
        r@.artists.len() > 0 || known(r@, lower_of(DEFAULT_AUTHOR@)),
{
    let mut meta = TrackMeta::new();
    if let Some(n) = &parts.file_name {
        meta.from_file_name(n.as_str());
    }
    if let Some(a) = &tags.album_artist {
        meta.from_album_author(a.as_str());
    }
    if let Some(n) = tags.track_number {
        meta.from_track_number(n);
    }
    assert(meta@ == tag_view(*tags, *parts));
    let ghost v3 = meta@;
    let (stem_artist, stem_album, stem_title, dir_author) = match &parts.file_stem {
        Some(stem) => {
            let st = stem_without_number_of(stem.as_str(), &meta.track_number);
            let (artist, title) = stem_split(st.as_str());
            infer_album_of(&meta, artist, title, tags, parts)
        },
        None => (None, None, None, None),
    };
    assert(opt_chars(stem_artist) == stem_facts(v3, *tags, *parts).artist);
    if let Some(a) = &dir_author {
        meta.from_album_author(a.as_str());
    }
    let tag_title = patched_title_of(tags, &stem_artist);
    if let Some(a) = &tags.album_title {
        meta.from_album(a.as_str());
    }
    if let Some(a) = &stem_album {
        meta.from_album(a.as_str());
    }
    if let Some(t) = &tag_title {
        meta.from_title(t.as_str());
    }
    if let Some(t) = &stem_title {
        meta.from_title(t.as_str());
    }
    if let Some(a) = &stem_artist {
        meta.from_artist(a.as_str());
    }
    if let Some(a) = &tags.artist {
        meta.from_artist(a.as_str());
    }
    if meta.artists.len() == 0 {
        proof {
            reveal_strlit("unknown");
            assert(DEFAULT_AUTHOR@ == seq!['u', 'n', 'k', 'n', 'o', 'w', 'n']);
            lemma_trimmed_by_ends(DEFAULT_AUTHOR@);
        }
        meta.add_artist(DEFAULT_AUTHOR, false);
    }
    meta
}

/// An ASCII letter.
pub open spec fn is_ascii_letter(c: char) -> bool {
    let u = c as u32;
    (0x41 <= u && u <= 0x5a) || (0x61 <= u && u <= 0x7a)
}

/// An author name that starts with anything but an ASCII letter, a digit
/// for one, goes to the catch-all bucket, never to a lettered one.
pub proof fn lemma_non_letter_bucket(author: Seq<char>)
    requires
        author.len() > 0,
        !is_ascii_letter(author[0]),
    ensures
        category_of(author) == DEFAULT_CATEGORY@,
{
}

/// Registering a name that differs from one registered before only in case
/// (their trimmed forms have one lower-case form) changes nothing, in
/// either role.
pub proof fn lemma_register_idempotent(
    v: MetaView,
    a: Seq<char>,
    b: Seq<char>,
    role_a: bool,
    role_b: bool,
)
    requires
        trim(a).len() > 0,
        lower_of(trim(a)) == lower_of(trim(b)),
    ensures
        register(register(v, a, role_a), b, role_b) == register(v, a, role_a),
        register(register(v, a, role_a), b, role_b).artists.len() == register(
            v,
            a,
            role_a,
        ).artists.len(),
{
    let w = register(v, a, role_a);
    let t = trim(a);
    if !known(v, lower_of(t)) {
        if role_a {
            assert(w.features[w.features.len() - 1] == t);
        } else {
            assert(w.artists[w.artists.len() - 1] == t);
        }
    }
    assert(known(w, lower_of(t)));
}

/// Setting the title or registering artists leaves the album alone.
pub proof fn lemma_album_kept(v: MetaView, x: Seq<char>)
    ensures
        with_title(v, x).album == v.album,
        with_artist(v, x).album == v.album,
{
    let t = trim(x);
    match split_first(Sep::FeatEnd, t) {
        Some(p) => lemma_register_all_keeps(v, split_all(Sep::Artist, trim_closer(trim(p.1))), true),
        None => {},
    }
    match split_first(Sep::Feat, t) {
        Some(p) => {
            let w = register_all(v, split_all(Sep::Artist, trim(p.1)), true);
            lemma_register_all_keeps(v, split_all(Sep::Artist, trim(p.1)), true);
            lemma_register_all_keeps(w, split_all(Sep::Artist, trim(p.0)), false);
        },
        None => lemma_register_all_keeps(v, split_all(Sep::Artist, trim(t)), false),
    }
}

/// First wins: where the tags name an album, that album is the track's,
/// whatever the file name and its directories suggest.
pub proof fn lemma_tag_album_wins(tags: Tags, parts: FileParts)
    requires
        opt_chars(tags.album_title) is Some,
        trim(opt_chars(tags.album_title)->0).len() > 0,
    ensures
        parse_view(tags, parts).album == Some(trim(opt_chars(tags.album_title)->0)),
{
    let v3 = tag_view(tags, parts);
    let f = stem_facts(v3, tags, parts);
    let v4 = opt_album_author(v3, f.dir_author);
    let tag_title = patched_title(opt_chars(tags.title), opt_chars(tags.artist), f.artist);
    let v5 = opt_album(opt_album(v4, opt_chars(tags.album_title)), f.album);
    assert(v5.album == Some(trim(opt_chars(tags.album_title)->0)));
    let v6a = opt_title(v5, tag_title);
    if tag_title is Some { lemma_album_kept(v5, tag_title->0); }
    let v6 = opt_title(v6a, f.title);
    if f.title is Some { lemma_album_kept(v6a, f.title->0); }
    let v7 = opt_artist(v6, f.artist);
    if f.artist is Some { lemma_album_kept(v6, f.artist->0); }
    if opt_chars(tags.artist) is Some { lemma_album_kept(v7, opt_chars(tags.artist)->0); }
}

/// A stem "Artist - Title" splits into the artist and the title, where
/// both are trimmed and the artist, followed by a space, holds no primary
/// separator.
pub proof fn lemma_stem_split_pair(a: Seq<char>, t: Seq<char>)
    requires
        trim(a) == a,
        trim(t) == t,
        find_sep(Sep::Primary, a.push(' '), 0) is None,
    ensures
        split_stem(a + seq![' ', '-', ' '] + t) == (Some(a), t),
{
    let s = a + seq![' ', '-', ' '] + t;
    let b = a.push(' ');
    let n = a.len() as int;
    assert forall|j: int| 0 <= j < n implies !#[trigger] matches_at(Sep::Primary, s, j) by {
        lemma_find_none(Sep::Primary, b, 0, j);
        assert(s[j] == b[j]);
        assert(s[j + 1] == b[j + 1]);
        if j + 2 < b.len() {
            assert(s[j + 2] == b[j + 2]);
        }
    }
    assert(s[n] == ' ' && s[n + 1] == '-' && s[n + 2] == ' ');
    assert(matches_at(Sep::Primary, s, n));
    lemma_find_first(Sep::Primary, s, 0, n);
    assert(s.subrange(0, n) =~= a);
    assert(s.subrange(n + 3, s.len() as int) =~= t);
}

/// A stem with no separator comes back unchanged, with no leading segment.
pub proof fn lemma_stem_split_none(s: Seq<char>)
    requires
        find_sep(Sep::Primary, s, 0) is None,
        find_sep(Sep::Fallback, trim(s), 0) is None,
    ensures
        split_stem(s) == (None::<Seq<char>>, s),
{
}

/// ", ".
pub open spec fn comma_space() -> Seq<char> {
    seq![',', ' ']
}

/// " feat. ".
pub open spec fn feat_marker() -> Seq<char> {
    seq![' ', 'f', 'e', 'a', 't', '.', ' ']
}

/// In `x + ", " + y`, where `x` is trimmed and `y` is the rest, the names
/// split exactly at the comma.
proof fn lemma_split_pair(x: Seq<char>, y: Seq<char>)
    requires
        x.len() > 0,
        trim(x) == x,
        find_sep(Sep::Artist, x, 0) is None,
        find_sep(Sep::Artist, y, 0) is None,
    ensures
        split_all(Sep::Artist, x + comma_space() + y) == seq![x, y],
{
    let p = x + comma_space() + y;
    let n = x.len() as int;
    lemma_trimmed_ends(x);
    assert forall|i: int| 0 <= i < n implies !#[trigger] matches_at(Sep::Artist, p, i) by {
        lemma_find_none(Sep::Artist, x, 0, i);
        assert(p[i] == x[i]);
        assert(p[n] == ',' && p[n + 1] == ' ');
        if i + 1 < n { assert(p[i + 1] == x[i + 1]); }
        if i + 2 < n { assert(p[i + 2] == x[i + 2]); }
        if i + 3 < n { assert(p[i + 3] == x[i + 3]); }
        if i + 4 < n { assert(p[i + 4] == x[i + 4]); }
    }
    assert(matches_at(Sep::Artist, p, n));
    let off = n + 2;
    assert forall|i: int| off <= i < p.len() implies !#[trigger] matches_at(Sep::Artist, p, i) by {
        lemma_find_none(Sep::Artist, y, 0, i - off);
        assert forall|t: int| 0 <= t < y.len() implies p[off + t] == y[t] by {}
    }
    if off < p.len() {
        lemma_split_at(Sep::Artist, p, 0, 0, n);
        lemma_split_rest(Sep::Artist, p, off, off);
    } else {
        lemma_split_at(Sep::Artist, p, 0, 0, n);
    }
    assert(p.subrange(0, n) =~= x);
    assert(p.subrange(off, p.len() as int) =~= y);
}

/// The artist text "X, Y feat. Z" gives the artists X and Y and the
/// feature Z, none of them twice in any case: where the three names are
/// trimmed and not empty, hold no name separator, differ in their
/// lower-case forms, "X, Y" followed by a space holds no feature marker,
/// and Y does not end in a comma.
pub proof fn lemma_inline_feature(x: Seq<char>, y: Seq<char>, z: Seq<char>)
    requires
        x.len() > 0 && y.len() > 0 && z.len() > 0,
        trim(x) == x && trim(y) == y && trim(z) == z,
        find_sep(Sep::Artist, x, 0) is None,
        find_sep(Sep::Artist, y, 0) is None,
        find_sep(Sep::Artist, z, 0) is None,
        find_sep(Sep::Feat, (x + comma_space() + y).push(' '), 0) is None,
        y.last() != ',',
        lower_of(x) != lower_of(y),
        lower_of(x) != lower_of(z),
        lower_of(y) != lower_of(z),
    ensures
        ({
            let r = with_artist(empty_view(), x + comma_space() + y + feat_marker() + z);
            &&& r.artists == seq![x, y]
            &&& r.features == seq![z]
            &&& distinct_names(r)
        }),
{
    let p = x + comma_space() + y;
    let b = p.push(' ');
    let s = p + feat_marker() + z;
    let n = p.len() as int;
    lemma_trimmed_ends(x);
    lemma_trimmed_ends(y);
    lemma_trimmed_ends(z);
    assert(s[0] == x[0]);
    assert(s.last() == z.last());
    lemma_trimmed_by_ends(s);
    assert(p[0] == x[0]);
    assert(p.last() == y.last());
    lemma_trimmed_by_ends(p);
    assert forall|i: int| 0 <= i < n implies !#[trigger] matches_at(Sep::Feat, s, i) by {
        lemma_find_none(Sep::Feat, b, 0, i);
        assert forall|t: int| 0 <= t <= n implies s[t] == b[t] by {}
        assert(s[n + 1] == 'f');
    }
    assert(s[n] == ' ' && s[n + 1] == 'f' && s[n + 2] == 'e' && s[n + 3] == 'a');
    assert(s[n + 4] == 't' && s[n + 5] == '.' && s[n + 6] == ' ');
    assert(feat_tail(s, n + 1) == n + 7);
    assert(sep_len(Sep::Feat, s, n) == 7);
    lemma_find_first(Sep::Feat, s, 0, n);
    assert(s.subrange(0, n) =~= p);
    assert(s.subrange(n + 7, s.len() as int) =~= z);
    assert(split_first(Sep::Feat, s) == Some((p, z)));
    lemma_split_whole(Sep::Artist, z);
    lemma_split_pair(x, y);
    let v0 = empty_view();
    reveal_with_fuel(register_all, 3);
    let v1 = register_all(v0, seq![z], true);
    assert(seq![z].drop_first() =~= seq![]);
    assert(!known(v0, lower_of(z)));
    assert(v1 == register(v0, z, true));
    assert(v1.features =~= seq![z]);
    assert(v1.artists =~= Seq::<Seq<char>>::empty());
    let v2 = register(v1, x, false);
    assert(!known(v1, lower_of(x)));
    assert(v2.artists =~= seq![x]);
    let v3 = register(v2, y, false);
    assert(!known(v2, lower_of(y)));
    assert(v3.artists =~= seq![x, y]);
    assert(seq![x, y].drop_first() =~= seq![y]);
    assert(seq![y].drop_first() =~= seq![]);
    assert(register_all(v1, seq![x, y], false) == v3);
}

} // verus!
