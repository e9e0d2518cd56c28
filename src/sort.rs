//! Planning where collections and files go: each collection with a single
//! known author moves as a whole to `{bucket}/{author}/{name}`; every file
//! not carried along by a moved collection goes to its own place.

use vstd::prelude::*;
use crate::text::{chars_of, slice_string, eq_nocase, same_nocase, starts_with};
use crate::meta::{TrackMeta, MetaView, author_of, category_of, get_category_name, DEFAULT_CATEGORY};
use crate::infer::{Database, Collection, File, FileID, CollectionID, parent_of, file_name_of, last_slash, lemma_last_slash_bounds, parent_path, file_name_path, collection_ok, file_ok};

verus! {

/// `p` is `base` or lies below it, component by component.
pub open spec fn under(base: Seq<char>, p: Seq<char>) -> bool {
    &&& p.len() >= base.len()
    &&& p.subrange(0, base.len() as int) == base
    &&& (p.len() == base.len() || base.len() == 0 || base.last() == '/' || p[base.len() as int]
        == '/')
}

/// `p` relative to `base` where it lies below it, else `p` itself.
pub open spec fn rel_path(base: Seq<char>, p: Seq<char>) -> Seq<char> {
    if !under(base, p) {
        p
    } else if p.len() == base.len() {
        seq![]
    } else if base.len() == 0 || base.last() == '/' {
        p.subrange(base.len() as int, p.len() as int)
    } else {
        p.subrange(base.len() as int + 1, p.len() as int)
    }
}

/// `a/b`.
pub open spec fn join(a: Seq<char>, b: Seq<char>) -> Seq<char> {
    a + "/"@ + b
}

/// `rel` placed inside the directory `base`.
pub open spec fn join_path(base: Seq<char>, rel: Seq<char>) -> Seq<char> {
    if base.len() > 0 && base.last() == '/' {
        base + rel
    } else {
        join(base, rel)
    }
}

/// Whether `p` is `base` or lies below it, as `Path::starts_with` tells.
pub fn path_starts_with(p: &str, base: &str) -> (r: bool)
    ensures
        r == under(base@, p@),
{
    if !starts_with(p, base) {
        return false;
    }
    let x = chars_of(p);
    let b = chars_of(base);
    x.len() == b.len() || b.len() == 0 || b[b.len() - 1] == '/' || x[b.len()] == '/'
}

/// `file` relative to `cwd` where it lies below it, else `file` itself.
pub fn get_rel_path(cwd: &str, file: &str) -> (r: String)
    ensures
        r@ == rel_path(cwd@, file@),
{
    let x = chars_of(file);
    let b = chars_of(cwd);
    if !path_starts_with(file, cwd) {
        String::from_str(file)
    } else if x.len() == b.len() {
        String::new()
    } else if b.len() == 0 || b[b.len() - 1] == '/' {
        slice_string(file, b.len(), x.len())
    } else {
        slice_string(file, b.len() + 1, x.len())
    }
}

fn join_of(a: &str, b: &str) -> (r: String)
    ensures
        r@ == join(a@, b@),
{
    let mut r = String::from_str(a);
    r.append("/");
    r.append(b);
    r
}

/// Who is observed as author of which collection, as sequences.
pub open spec fn authors_view(obs: Seq<(CollectionID, String)>) -> Seq<(CollectionID, Seq<char>)> {
    obs.map_values(|p: (CollectionID, String)| (p.0, p.1@))
}

/// Every author observed for collection `c`.
pub open spec fn authors_of(obs: Seq<(CollectionID, Seq<char>)>, c: CollectionID) -> Set<Seq<char>> {
    Set::new(|a: Seq<char>| exists|i: int| 0 <= i < obs.len() && (#[trigger] obs[i]).0 == c && obs[i].1 == a)
}

/// The one author observed for `c`, where exactly one was.
pub open spec fn sole_author(obs: Seq<(CollectionID, Seq<char>)>, c: CollectionID) -> Option<Seq<char>> {
    if exists|a: Seq<char>| authors_of(obs, c) == set![a] {
        Some(choose|a: Seq<char>| authors_of(obs, c) == set![a])
    } else {
        None
    }
}

/// The one author observed for collection `c`, if exactly one was.
pub fn sole_author_of(obs: &Vec<(CollectionID, String)>, c: CollectionID) -> (r: Option<String>)
    ensures
        opt_view(r) == sole_author(authors_view(obs@), c),
{
    let ghost ov = authors_view(obs@);
    let mut first: Option<usize> = None;
    let mut i: usize = 0;
    while i < obs.len()
        invariant
            ov == authors_view(obs@),
            i <= obs@.len(),
            match first {
                Some(k) => k < i && ov[k as int].0 == c && forall|j: int|
                    0 <= j < i && (#[trigger] ov[j]).0 == c ==> ov[j].1 == ov[k as int].1,
                None => forall|j: int| 0 <= j < i ==> (#[trigger] ov[j]).0 != c,
            },
        decreases obs@.len() - i,
    {
        if obs[i].0 == c {
            match first {
                None => {
                    first = Some(i);
                },
                Some(k) => {
                    if obs[i].1 != obs[k].1 {
                        proof {
                            let a = ov[k as int].1;
                            let b = ov[i as int].1;
                            assert(authors_of(ov, c).contains(a));
                            assert(authors_of(ov, c).contains(b));
                            if exists|x: Seq<char>| authors_of(ov, c) == set![x] {
                                let x = choose|x: Seq<char>| authors_of(ov, c) == set![x];
                                assert(set![x].contains(a));
                                assert(set![x].contains(b));
                            }
                        }
                        return None;
                    }
                },
            }
        }
        i = i + 1;
    }
    match first {
        None => {
            proof {
                assert(authors_of(ov, c) =~= Set::empty());
                if exists|x: Seq<char>| authors_of(ov, c) == set![x] {
                    let x = choose|x: Seq<char>| authors_of(ov, c) == set![x];
                    assert(set![x].contains(x));
                }
            }
            None
        },
        Some(k) => {
            proof {
                let a = ov[k as int].1;
                assert(authors_of(ov, c) =~= set![a]);
                let x = choose|x: Seq<char>| authors_of(ov, c) == set![x];
                assert(set![x].contains(a));
            }
            Some(String::from_str(obs[k].1.as_str()))
        },
    }
}

pub open spec fn opt_view(o: Option<String>) -> Option<Seq<char>> {
    match o {
        Some(s) => Some(s@),
        None => None,
    }
}

/// Collection `a` comes before `b`: it lies higher, or as high and was
/// recorded first.
pub open spec fn before(cs: Seq<Collection>, a: usize, b: usize) -> bool {
    cs[a as int].depth < cs[b as int].depth || (cs[a as int].depth == cs[b as int].depth && a < b)
}

/// `order` lists the collections that hold files, each once, by ascending
/// depth, and in order of recording among equal depths.
pub open spec fn order_ok(cs: Seq<Collection>, order: Seq<usize>) -> bool {
    &&& forall|p: int| 0 <= p < order.len() ==> (#[trigger] order[p]) < cs.len() && cs[order[p] as int].has_files
    &&& forall|i: int| 0 <= i < cs.len() && (#[trigger] cs[i]).has_files ==> order.contains(i as usize)
    &&& forall|p: int, q: int| 0 <= p < q < order.len() ==> before(cs, #[trigger] order[p], #[trigger] order[q])
}

/// The collections that hold files, by ascending depth, stable.
pub fn by_depth(cs: &Vec<Collection>) -> (r: Vec<usize>)
    ensures
        order_ok(cs@, r@),
{
    let mut order: Vec<usize> = Vec::new();
    let mut i: usize = 0;
    while i < cs.len()
        invariant
            i <= cs@.len(),
            forall|p: int| 0 <= p < order@.len() ==> (#[trigger] order@[p]) < i && cs@[order@[p] as int].has_files,
            forall|k: int| 0 <= k < i && (#[trigger] cs@[k]).has_files ==> order@.contains(k as usize),
            forall|p: int, q: int| 0 <= p < q < order@.len() ==> before(cs@, #[trigger] order@[p], #[trigger] order@[q]),
        decreases cs@.len() - i,
    {
        if cs[i].has_files {
            let d = cs[i].depth;
            let mut p = order.len();
            while p > 0 && cs[order[p - 1]].depth > d
                invariant
                    p <= order@.len(),
                    i < cs@.len(),
                    d == cs@[i as int].depth,
                    forall|q: int| 0 <= q < order@.len() ==> (#[trigger] order@[q]) < i,
                    forall|q: int| p <= q < order@.len() ==> cs@[(#[trigger] order@[q]) as int].depth > d,
                decreases p,
            {
                p = p - 1;
            }
            let ghost old_order = order@;
            order.insert(p, i);
            proof {
                assert forall|a: int, b: int| 0 <= a < b < order@.len() implies before(cs@, #[trigger] order@[a], #[trigger] order@[b]) by {
                    if b == p {
                        if a < p - 1 {
                            assert(before(cs@, old_order[a], old_order[p - 1]));
                        }
                    } else if a == p {
                        assert(cs@[old_order[b - 1] as int].depth > d);
                    } else if a < p && b > p {
                        assert(before(cs@, old_order[a], old_order[b - 1]));
                    } else if a > p {
                        assert(before(cs@, old_order[a - 1], old_order[b - 1]));
                    } else {
                        assert(before(cs@, old_order[a], old_order[b]));
                    }
                }
                assert forall|k: int| 0 <= k < i + 1 && (#[trigger] cs@[k]).has_files implies order@.contains(k as usize) by {
                    if k == i {
                        assert(order@[p as int] == i);
                    } else {
                        assert(old_order.contains(k as usize));
                        let w = choose|w: int| 0 <= w < old_order.len() && old_order[w] == k as usize;
                        if w < p {
                            assert(order@[w] == k as usize);
                        } else {
                            assert(order@[w + 1] == k as usize);
                        }
                    }
                }
            }
        }
        i = i + 1;
    }
    order
}

/// Directory, under the catch-all bucket, for files with no known author.
pub const UNKNOWN_DIR: &'static str = ".unknown";

/// The author that a file reports for its directory: its album author,
/// where its album names the directory it lies in.
pub open spec fn noted_author(v: MetaView, path: Seq<char>) -> Option<Seq<char>> {
    match (v.album, parent_of(path)) {
        (Some(al), Some(dir)) => if eq_nocase(file_name_of(dir), al) {
            v.album_author
        } else {
            None
        },
        _ => None,
    }
}

pub open spec fn metas_view(ms: Seq<TrackMeta>) -> Seq<MetaView> {
    ms.map_values(|m: TrackMeta| m@)
}

/// The files to sort, their metadata, and the authors observed per
/// collection.
pub struct Catalog {
    db: Database,
    metas: Vec<TrackMeta>,
    authors: Vec<(CollectionID, String)>,
}

impl Catalog {
    pub closed spec fn collections_view(&self) -> Seq<Collection> {
        self.db.collections_view()
    }

    pub closed spec fn files_view(&self) -> Seq<File> {
        self.db.files_view()
    }

    pub closed spec fn metas(&self) -> Seq<MetaView> {
        metas_view(self.metas@)
    }

    pub closed spec fn authors(&self) -> Seq<(CollectionID, Seq<char>)> {
        authors_view(self.authors@)
    }

    pub closed spec fn wf(&self) -> bool {
        self.db.wf() && self.metas@.len() == self.db.files_view().len()
    }

    pub fn new() -> (r: Catalog)
        ensures
            r.wf(),
            r.collections_view().len() == 0,
            r.files_view().len() == 0,
            r.authors().len() == 0,
    {
        let r = Catalog { db: Database::new(), metas: Vec::new(), authors: Vec::new() };
        assert(r.authors() =~= seq![]);
        r
    }

    /// Records a file by its canonical path, with its metadata; where its
    /// album names its directory, its album author is noted for that
    /// directory. Nothing for a path without a parent directory.
    pub fn add(&mut self, path: &str, meta: TrackMeta) -> (r: Option<FileID>)
        requires
            old(self).wf(),
        ensures
            final(self).wf(),
            r is Some <==> parent_of(path@) is Some,
            r is None ==> final(self).files_view() == old(self).files_view() && final(self).authors()
                == old(self).authors(),
            r matches Some(id) ==> ({
                let f = final(self).files_view()[id as int];
                &&& id < final(self).files_view().len()
                &&& f.path@ == path@
                &&& final(self).metas()[id as int] == meta@
                &&& final(self).authors() == old(self).authors() + match noted_author(meta@, path@) {
                    Some(a) => seq![(f.id_collection, a)],
                    None => seq![],
                }
            }),
    {
        let dir = match parent_path(path) {
            Some(d) => d,
            None => return None,
        };
        let id = match self.db.add_file_canon(path) {
            Some(id) => id,
            None => return None,
        };
        let cid = self.db.file_collection(id);
        let dname = file_name_path(dir.as_str());
        let ghost a0 = self.authors@;
        if let (Some(al), Some(aa)) = (&meta.album, &meta.album_author) {
            if same_nocase(dname.as_str(), al.as_str()) {
                self.authors.push((cid, String::from_str(aa.as_str())));
            }
        }
        proof {
            match noted_author(meta@, path@) {
                Some(a) => {
                    assert(authors_view(self.authors@) =~= authors_view(a0) + seq![(cid, a)]);
                },
                None => {
                    assert(authors_view(self.authors@) =~= authors_view(a0) + seq![]);
                },
            }
        }
        let ghost m = meta@;
        if id < self.metas.len() {
            self.metas[id] = meta;
        } else {
            self.metas.push(meta);
        }
        assert(metas_view(self.metas@)[id as int] == m);
        Some(id)
    }

    /// Starts planning, from the working directory `working_dir`.
    pub fn into_planner(self, working_dir: &str) -> (r: Planner)
        requires
            self.wf(),
        ensures
            r.wf(),
            planner_ok(r@),
            r@.collections == self.collections_view(),
            r@.files == self.files_view(),
            r@.metas == self.metas(),
            r@.authors == self.authors(),
            r@.working_dir == working_dir@,
            r@.moved == Seq::new(self.collections_view().len(), |i: int| false),
            r@.next == 0,
            r@.pending is None,
    {
        let (collections, files) = self.db.complete();
        let order = by_depth(&collections);
        let mut moved: Vec<bool> = Vec::new();
        let mut i: usize = 0;
        while i < collections.len()
            invariant
                i <= collections@.len(),
                moved@ == Seq::new(i as nat, |k: int| false),
            decreases collections@.len() - i,
        {
            moved.push(false);
            i = i + 1;
            assert(moved@ =~= Seq::new(i as nat, |k: int| false));
        }
        Planner {
            collections,
            order,
            files,
            metas: self.metas,
            authors: self.authors,
            working_dir: String::from_str(working_dir),
            moved,
            next_collection: 0,
            next_file: 0,
            pending: None,
        }
    }
}

/// What the planner proposes next.
#[derive(Debug)]
pub enum Step {
    /// Nothing is left to plan.
    Done,
    /// The item stays where it is, or travels with its moved parent.
    Keep,
    /// The item is where it belongs already.
    Unchanged { source: String },
    /// The item should move; it moves only once the caller confirms.
    Move { source: String, dest: String },
}

pub enum StepView {
    Done,
    Keep,
    Unchanged(Seq<char>),
    Move(Seq<char>, Seq<char>),
}

impl View for Step {
    type V = StepView;

    open spec fn view(&self) -> StepView {
        match self {
            Step::Done => StepView::Done,
            Step::Keep => StepView::Keep,
            Step::Unchanged { source } => StepView::Unchanged(source@),
            Step::Move { source, dest } => StepView::Move(source@, dest@),
        }
    }
}

/// Plans, one item at a time, the moves of the collections (by ascending
/// depth) and then of the files.
pub struct Planner {
    collections: Vec<Collection>,
    order: Vec<usize>,
    files: Vec<File>,
    metas: Vec<TrackMeta>,
    authors: Vec<(CollectionID, String)>,
    working_dir: String,
    moved: Vec<bool>,
    next_collection: usize,
    next_file: usize,
    pending: Option<CollectionID>,
}

pub struct PlannerView {
    pub collections: Seq<Collection>,
    /// The collections that hold files, by ascending depth.
    pub order: Seq<usize>,
    pub files: Seq<File>,
    /// Metadata of file `k` at position `k`.
    pub metas: Seq<MetaView>,
    pub authors: Seq<(CollectionID, Seq<char>)>,
    pub working_dir: Seq<char>,
    /// Which collections have moved, by id.
    pub moved: Seq<bool>,
    /// The next item: a position in `order`, then `order.len()` plus a file
    /// position.
    pub next: nat,
    /// The collection whose move was proposed last.
    pub pending: Option<CollectionID>,
}

impl View for Planner {
    type V = PlannerView;

    closed spec fn view(&self) -> PlannerView {
        PlannerView {
            collections: self.collections@,
            order: self.order@,
            files: self.files@,
            metas: metas_view(self.metas@),
            authors: authors_view(self.authors@),
            working_dir: self.working_dir@,
            moved: self.moved@,
            next: (self.next_collection + self.next_file) as nat,
            pending: self.pending,
        }
    }
}

/// The destination of a collection with one author.
pub open spec fn collection_dest(author: Seq<char>, path: Seq<char>) -> Seq<char> {
    join(join(category_of(author), author), file_name_of(path))
}

/// The destination of a single file: bucket and author (or the unknown
/// folder), then the album if known, then its name.
pub open spec fn file_dest(v: MetaView, path: Seq<char>) -> Seq<char> {
    let head = match author_of(v) {
        Some(a) => join(category_of(a), a),
        None => join(DEFAULT_CATEGORY@, UNKNOWN_DIR@),
    };
    let mid = match v.album {
        Some(al) => join(head, al),
        None => head,
    };
    join(mid, file_name_of(path))
}

/// A move whose two ends differ only in ASCII case is no move.
pub open spec fn decide(source: Seq<char>, dest: Seq<char>) -> StepView {
    if eq_nocase(dest, source) {
        StepView::Unchanged(source)
    } else {
        StepView::Move(source, dest)
    }
}

/// What collection `c` calls for, given the state `v`.
pub open spec fn collection_step(v: PlannerView, c: Collection) -> StepView {
    if under(c.path@, v.working_dir) {
        StepView::Keep
    } else {
        match sole_author(v.authors, c.id) {
            None => StepView::Keep,
            Some(a) => decide(rel_path(v.working_dir, c.path@), collection_dest(a, c.path@)),
        }
    }
}

/// What file position `k` calls for, given the state `v`.
pub open spec fn file_step(v: PlannerView, k: int) -> StepView {
    let f = v.files[k];
    if v.moved[f.id_collection as int] {
        StepView::Keep
    } else {
        decide(rel_path(v.working_dir, f.path@), file_dest(v.metas[k], f.path@))
    }
}

/// One planning step: the next state and what is proposed.
pub open spec fn step_of(v: PlannerView) -> (PlannerView, StepView) {
    let v1 = PlannerView { pending: None, next: v.next + 1, ..v };
    if v.next < v.order.len() {
        let c = v.collections[v.order[v.next as int] as int];
        if c.id_parent is Some && v.moved[c.id_parent->0 as int] {
            (PlannerView { moved: v.moved.update(c.id as int, true), ..v1 }, StepView::Keep)
        } else {
            let s = collection_step(v, c);
            (PlannerView { pending: if s is Move { Some(c.id) } else { None }, ..v1 }, s)
        }
    } else if v.next < v.order.len() + v.files.len() {
        (v1, file_step(v, v.next - v.order.len()))
    } else {
        (PlannerView { pending: None, ..v }, StepView::Done)
    }
}

/// The state once the last proposed move has been carried out.
pub open spec fn confirmed(v: PlannerView) -> PlannerView {
    match v.pending {
        Some(c) => PlannerView { moved: v.moved.update(c as int, true), pending: None, ..v },
        None => v,
    }
}

/// Ids are positions; each file's collection is recorded; one metadata
/// record per file and one moved flag per collection; `order` lists the
/// collections that hold files by ascending depth; the cursor is in range.
pub open spec fn planner_ok(v: PlannerView) -> bool {
    &&& forall|i: int| 0 <= i < v.collections.len() ==> #[trigger] collection_ok(v.collections, i)
    &&& forall|j: int| 0 <= j < v.files.len() ==> #[trigger] file_ok(v.collections, v.files, j)
    &&& v.metas.len() == v.files.len()
    &&& v.moved.len() == v.collections.len()
    &&& order_ok(v.collections, v.order)
    &&& v.next <= v.order.len() + v.files.len()
    &&& v.pending matches Some(c) ==> c < v.collections.len()
}

fn decide_of(source: String, dest: String) -> (r: Step)
    ensures
        r@ == decide(source@, dest@),
{
    if same_nocase(dest.as_str(), source.as_str()) {
        Step::Unchanged { source }
    } else {
        Step::Move { source, dest }
    }
}

fn file_dest_of(meta: &TrackMeta, path: &str) -> (r: String)
    ensures
        r@ == file_dest(meta@, path@),
{
    let head = match meta.get_author() {
        Some(a) => join_of(get_category_name(a), a),
        None => join_of(DEFAULT_CATEGORY, UNKNOWN_DIR),
    };
    let mid = match &meta.album {
        Some(al) => join_of(head.as_str(), al.as_str()),
        None => head,
    };
    let name = file_name_path(path);
    join_of(mid.as_str(), name.as_str())
}

impl Planner {
    pub closed spec fn wf(&self) -> bool {
        &&& planner_ok(self@)
        &&& self.next_collection <= self.order@.len()
        &&& self.next_file <= self.files@.len()
        &&& self.next_file > 0 ==> self.next_collection == self.order@.len()
    }

    /// Plans the next item.
    pub fn next_step(&mut self) -> (r: Step)
        requires
            old(self).wf(),
        ensures
            final(self).wf(),
            planner_ok(final(self)@),
            (final(self)@, r@) == step_of(old(self)@),
    {
        self.pending = None;
        let nc = self.order.len();
        if self.next_collection < nc {
            let ci = self.order[self.next_collection];
            self.next_collection = self.next_collection + 1;
            proof {
                assert(collection_ok(self.collections@, ci as int));
            }
            if let Some(q) = self.collections[ci].id_parent {
                if self.moved[q] {
                    self.moved[ci] = true;
                    return Step::Keep;
                }
            }
            if path_starts_with(self.working_dir.as_str(), self.collections[ci].path.as_str()) {
                return Step::Keep;
            }
            match sole_author_of(&self.authors, ci) {
                None => Step::Keep,
                Some(a) => {
                    let path = self.collections[ci].path.as_str();
                    let source = get_rel_path(self.working_dir.as_str(), path);
                    let name = file_name_path(path);
                    let head = join_of(get_category_name(a.as_str()), a.as_str());
                    let dest = join_of(head.as_str(), name.as_str());
                    let s = decide_of(source, dest);
                    if let Step::Move { .. } = &s {
                        self.pending = Some(ci);
                    }
                    s
                },
            }
        } else if self.next_file < self.files.len() {
            let k = self.next_file;
            self.next_file = self.next_file + 1;
            proof {
                assert(file_ok(self.collections@, self.files@, k as int));
            }
            if self.moved[self.files[k].id_collection] {
                return Step::Keep;
            }
            let path = self.files[k].path.as_str();
            let source = get_rel_path(self.working_dir.as_str(), path);
            let dest = file_dest_of(&self.metas[k], path);
            decide_of(source, dest)
        } else {
            Step::Done
        }
    }

    /// Records that the move proposed last was carried out, so that what
    /// lies inside the moved collection is not planned again.
    pub fn confirm(&mut self)
        requires
            old(self).wf(),
        ensures
            final(self).wf(),
            planner_ok(final(self)@),
            final(self)@ == confirmed(old(self)@),
    {
        if let Some(c) = self.pending {
            self.moved[c] = true;
            self.pending = None;
        }
    }
}

/// A collection whose files report two different authors is never moved
/// as a whole, unless its parent moved: it is kept, nothing is marked as
/// moved, and so each of its files is planned on its own.
pub proof fn lemma_mixed_authors_stay(v: PlannerView, i: int, j: int)
    requires
        v.next < v.order.len(),
        ({
            let c = v.collections[v.order[v.next as int] as int];
            &&& !(c.id_parent is Some && v.moved[c.id_parent->0 as int])
            &&& 0 <= i < v.authors.len()
            &&& 0 <= j < v.authors.len()
            &&& v.authors[i].0 == c.id
            &&& v.authors[j].0 == c.id
            &&& v.authors[i].1 != v.authors[j].1
        }),
    ensures
        collection_step(v, v.collections[v.order[v.next as int] as int]) == StepView::Keep,
        step_of(v).1 == StepView::Keep,
        step_of(v).0.moved == v.moved,
        step_of(v).0.pending is None,
{
    let c = v.collections[v.order[v.next as int] as int];
    let a = v.authors[i].1;
    let b = v.authors[j].1;
    assert(authors_of(v.authors, c.id).contains(a));
    assert(authors_of(v.authors, c.id).contains(b));
    if exists|x: Seq<char>| authors_of(v.authors, c.id) == set![x] {
        let x = choose|x: Seq<char>| authors_of(v.authors, c.id) == set![x];
        assert(set![x].contains(a));
        assert(set![x].contains(b));
    }
}

/// Past the last `/` of a path, there is none.
pub proof fn lemma_after_last_slash(p: Seq<char>)
    ensures
        forall|i: int| last_slash(p) < i < p.len() ==> p[i] != '/',
        forall|i: int| 0 <= i < file_name_of(p).len() ==> file_name_of(p)[i] != '/',
    decreases p.len(),
{
    lemma_last_slash_bounds(p);
    if p.len() > 0 && p.last() != '/' {
        lemma_after_last_slash(p.drop_last());
        assert forall|i: int| last_slash(p) < i < p.len() implies p[i] != '/' by {
            if i < p.len() - 1 {
                assert(p[i] == p.drop_last()[i]);
            }
        }
    }
}

/// The last component of `q/name` is `name`, where `name` holds no `/`.
pub proof fn lemma_last_component(q: Seq<char>, name: Seq<char>)
    requires
        forall|i: int| 0 <= i < name.len() ==> name[i] != '/',
    ensures
        last_slash(q.push('/') + name) == q.len(),
        file_name_of(q.push('/') + name) == name,
    decreases name.len(),
{
    let p = q.push('/') + name;
    if name.len() > 0 {
        lemma_last_component(q, name.drop_last());
        assert(p.drop_last() =~= q.push('/') + name.drop_last());
    } else {
        assert(p =~= q.push('/'));
    }
    assert(p.subrange(q.len() as int + 1, p.len() as int) =~= name);
}

/// A destination `q/name` placed in the working directory reads back as
/// itself, with `name` as its last component.
pub proof fn lemma_rel_join(wd: Seq<char>, q: Seq<char>, name: Seq<char>)
    requires
        wd.len() > 0,
        forall|i: int| 0 <= i < name.len() ==> name[i] != '/',
    ensures
        rel_path(wd, join_path(wd, join(q, name))) == join(q, name),
        file_name_of(join_path(wd, join(q, name))) == name,
{
    reveal_strlit("/");
    let d = join(q, name);
    assert(d =~= q.push('/') + name);
    let p = join_path(wd, d);
    if wd.last() == '/' {
        assert(p =~= (wd + q).push('/') + name);
        lemma_last_component(wd + q, name);
        assert(p.subrange(0, wd.len() as int) =~= wd);
        assert(p.subrange(wd.len() as int, p.len() as int) =~= d);
    } else {
        assert(p =~= (wd.push('/') + q).push('/') + name);
        lemma_last_component(wd.push('/') + q, name);
        assert(p.subrange(0, wd.len() as int) =~= wd);
        assert(p[wd.len() as int] == '/');
        assert(p.subrange(wd.len() as int + 1, p.len() as int) =~= d);
    }
}

/// Round trip: a file that already sits where the plan put it, with the
/// same metadata, is planned as unchanged; planning again after a move
/// moves nothing.
pub proof fn lemma_file_round_trip(v: PlannerView, k: int, before: Seq<char>)
    requires
        0 <= k < v.files.len(),
        k < v.metas.len(),
        v.working_dir.len() > 0,
        v.files[k].id_collection < v.moved.len(),
        !v.moved[v.files[k].id_collection as int],
        v.files[k].path@ == join_path(v.working_dir, file_dest(v.metas[k], before)),
    ensures
        file_step(v, k) == StepView::Unchanged(file_dest(v.metas[k], before)),
{
    let m = v.metas[k];
    let name = file_name_of(before);
    lemma_after_last_slash(before);
    let head = match author_of(m) {
        Some(a) => join(category_of(a), a),
        None => join(DEFAULT_CATEGORY@, UNKNOWN_DIR@),
    };
    let mid = match m.album {
        Some(al) => join(head, al),
        None => head,
    };
    lemma_rel_join(v.working_dir, mid, name);
    let d = file_dest(m, before);
    assert(file_dest(m, v.files[k].path@) == d);
    assert(eq_nocase(d, d));
}

/// Round trip for a collection: one that already sits where the plan put it
/// is planned as unchanged.
pub proof fn lemma_collection_round_trip(v: PlannerView, c: Collection, author: Seq<char>, before: Seq<char>)
    requires
        v.working_dir.len() > 0,
        !under(c.path@, v.working_dir),
        sole_author(v.authors, c.id) == Some(author),
        c.path@ == join_path(v.working_dir, collection_dest(author, before)),
    ensures
        collection_step(v, c) == StepView::Unchanged(collection_dest(author, before)),
{
    let name = file_name_of(before);
    lemma_after_last_slash(before);
    lemma_rel_join(v.working_dir, join(category_of(author), author), name);
    let d = collection_dest(author, before);
    assert(collection_dest(author, c.path@) == d);
    assert(eq_nocase(d, d));
}

/// Over a whole run, a collection whose files report two different authors
/// is never proposed for a move and is marked as moved only when its parent
/// was: no step and no confirmation moves it as a whole, so each of its
/// files is planned on its own.
pub proof fn lemma_mixed_authors_never_move(v: PlannerView, cid: CollectionID, i: int, j: int)
    requires
        planner_ok(v),
        cid < v.collections.len(),
        0 <= i < v.authors.len(),
        0 <= j < v.authors.len(),
        v.authors[i].0 == cid,
        v.authors[j].0 == cid,
        v.authors[i].1 != v.authors[j].1,
    ensures
        step_of(v).0.pending != Some(cid),
        step_of(v).0.authors == v.authors,
        step_of(v).0.collections == v.collections,
        step_of(v).0.moved[cid as int] ==> v.moved[cid as int] || ({
            let c = v.collections[cid as int];
            c.id_parent is Some && v.moved[c.id_parent->0 as int]
        }),
        v.pending != Some(cid) ==> confirmed(v).moved[cid as int] == v.moved[cid as int],
{
    let a = v.authors[i].1;
    let b = v.authors[j].1;
    assert(authors_of(v.authors, cid).contains(a));
    assert(authors_of(v.authors, cid).contains(b));
    if exists|x: Seq<char>| authors_of(v.authors, cid) == set![x] {
        let x = choose|x: Seq<char>| authors_of(v.authors, cid) == set![x];
        assert(set![x].contains(a));
        assert(set![x].contains(b));
    }
    assert(sole_author(v.authors, cid) is None);
    if v.next < v.order.len() {
        let k = v.order[v.next as int];
        assert(collection_ok(v.collections, k as int));
        if k == cid {
            assert(collection_step(v, v.collections[k as int]) == StepView::Keep);
        }
    }
}

} // verus!
