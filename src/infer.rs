//! The path hierarchy: directories ("collections") and the files in them,
//! each recorded once per canonical path and numbered in order of arrival.
//!
//! Paths are absolute and separated by `/`, as canonicalisation gives them.

use vstd::prelude::*;
use crate::text::{chars_of, slice_string};

verus! {

pub type CollectionID = usize;

pub type FileID = usize;

/// A directory that holds an input file, or that is an ancestor of one.
#[derive(Debug)]
pub struct Collection {
    pub path: String,
    pub id: CollectionID,
    pub id_parent: Option<CollectionID>,
    /// 1 for the root, else one more than the parent's.
    pub depth: usize,
    /// Whether an input file lies directly in it.
    pub has_files: bool,
}

/// An input file.
#[derive(Debug)]
pub struct File {
    pub path: String,
    pub id: FileID,
    pub id_collection: CollectionID,
}

/// Builds the forest of collections and files.
#[derive(Debug)]
pub struct Database {
    collections: Vec<Collection>,
    files: Vec<File>,
}

pub open spec fn has_root(p: Seq<char>) -> bool {
    p.len() > 0 && p[0] == '/'
}

/// Index of the last `/` in `p`, or -1.
pub open spec fn last_slash(p: Seq<char>) -> int
    decreases p.len(),
{
    if p.len() == 0 {
        -1
    } else if p.last() == '/' {
        p.len() - 1
    } else {
        last_slash(p.drop_last())
    }
}

/// The directory that holds `p`; none for the root and for relative paths.
pub open spec fn parent_of(p: Seq<char>) -> Option<Seq<char>> {
    if !has_root(p) || p.len() == 1 {
        None
    } else if last_slash(p) == 0 {
        Some(seq!['/'])
    } else {
        Some(p.subrange(0, last_slash(p)))
    }
}

/// The last component of `p`.
pub open spec fn file_name_of(p: Seq<char>) -> Seq<char> {
    p.subrange(last_slash(p) + 1, p.len() as int)
}

/// `a` is `p` or lies above it.
pub open spec fn ancestor_or_self(a: Seq<char>, p: Seq<char>) -> bool
    decreases p.len(),
{
    a == p || (parent_of(p) is Some && parent_of(p)->0.len() < p.len() && ancestor_or_self(
        a,
        parent_of(p)->0,
    ))
}

pub proof fn lemma_last_slash_bounds(p: Seq<char>)
    ensures
        -1 <= last_slash(p) < p.len(),
        last_slash(p) >= 0 ==> p[last_slash(p)] == '/',
        p.len() > 0 && p[0] == '/' ==> last_slash(p) >= 0,
    decreases p.len(),
{
    if p.len() > 0 && p.last() != '/' {
        lemma_last_slash_bounds(p.drop_last());
    }
}

pub proof fn lemma_parent_shorter(p: Seq<char>)
    ensures
        parent_of(p) is Some ==> parent_of(p)->0.len() < p.len() && has_root(parent_of(p)->0),
{
    lemma_last_slash_bounds(p);
}

pub proof fn lemma_ancestor_shorter(a: Seq<char>, p: Seq<char>)
    requires
        ancestor_or_self(a, p),
    ensures
        a.len() <= p.len(),
    decreases p.len(),
{
    if a != p {
        lemma_ancestor_shorter(a, parent_of(p)->0);
    }
}

/// Index of the last `/` in `cs`, if any.
fn last_slash_of(cs: &Vec<char>) -> (r: Option<usize>)
    ensures
        match r {
            Some(k) => last_slash(cs@) == k as int && k < cs@.len(),
            None => last_slash(cs@) == -1,
        },
{
    let mut k = cs.len();
    assert(cs@.subrange(0, k as int) =~= cs@);
    while k > 0 && cs[k - 1] != '/'
        invariant
            k <= cs@.len(),
            last_slash(cs@) == last_slash(cs@.subrange(0, k as int)),
        decreases k,
    {
        assert(cs@.subrange(0, k as int).drop_last() =~= cs@.subrange(0, k - 1));
        k = k - 1;
    }
    if k == 0 {
        None
    } else {
        Some(k - 1)
    }
}

/// The directory that holds `p`.
pub fn parent_path(p: &str) -> (r: Option<String>)
    ensures
        match parent_of(p@) {
            Some(q) => r matches Some(s) && s@ == q,
            None => r is None,
        },
{
    let cs = chars_of(p);
    if cs.len() <= 1 || cs[0] != '/' {
        return None;
    }
    proof {
        lemma_last_slash_bounds(p@);
    }
    match last_slash_of(&cs) {
        Some(k) => {
            if k == 0 {
                assert(p@.subrange(0, 1) =~= seq!['/']);
                Some(slice_string(p, 0, 1))
            } else {
                Some(slice_string(p, 0, k))
            }
        },
        None => None,
    }
}

/// The last component of `p`.
pub fn file_name_path(p: &str) -> (r: String)
    ensures
        r@ == file_name_of(p@),
{
    let cs = chars_of(p);
    proof {
        lemma_last_slash_bounds(p@);
    }
    let n = cs.len();
    match last_slash_of(&cs) {
        Some(k) => slice_string(p, k + 1, n),
        None => slice_string(p, 0, cs.len()),
    }
}

impl Database {
    pub closed spec fn collections_view(&self) -> Seq<Collection> {
        self.collections@
    }

    pub closed spec fn files_view(&self) -> Seq<File> {
        self.files@
    }

    /// Ids are positions, paths are unique, each collection links to the
    /// collection of its parent directory, and each file to that of its
    /// directory, which is marked as holding files.
    pub open spec fn wf(&self) -> bool {
        let cs = self.collections_view();
        let fs = self.files_view();
        &&& forall|i: int| 0 <= i < cs.len() ==> #[trigger] collection_ok(cs, i)
        &&& forall|i: int, j: int|
            0 <= i < j < cs.len() ==> (#[trigger] cs[i]).path@ != (#[trigger] cs[j]).path@
        &&& forall|j: int| 0 <= j < fs.len() ==> #[trigger] file_ok(cs, fs, j)
        &&& forall|i: int, j: int|
            0 <= i < j < fs.len() ==> (#[trigger] fs[i]).path@ != (#[trigger] fs[j]).path@
    }

    /// A database that holds nothing.
    pub fn new() -> (r: Database)
        ensures
            r.wf(),
            r.collections_view().len() == 0,
            r.files_view().len() == 0,
    {
        Database { collections: Vec::new(), files: Vec::new() }
    }

    fn find_collection(&self, path: &str) -> (r: Option<CollectionID>)
        ensures
            match r {
                Some(i) => i < self.collections@.len() && self.collections@[i as int].path@ == path@,
                None => forall|i: int|
                    0 <= i < self.collections@.len() ==> (#[trigger] self.collections@[i]).path@
                        != path@,
            },
    {
        let p = String::from_str(path);
        let mut i: usize = 0;
        while i < self.collections.len()
            invariant
                p@ == path@,
                i <= self.collections@.len(),
                forall|j: int|
                    0 <= j < i ==> (#[trigger] self.collections@[j]).path@ != path@,
            decreases self.collections@.len() - i,
        {
            if self.collections[i].path == p {
                return Some(i);
            }
            i = i + 1;
        }
        None
    }

    fn find_file(&self, path: &str) -> (r: Option<FileID>)
        ensures
            match r {
                Some(i) => i < self.files@.len() && self.files@[i as int].path@ == path@,
                None => forall|i: int|
                    0 <= i < self.files@.len() ==> (#[trigger] self.files@[i]).path@ != path@,
            },
    {
        let p = String::from_str(path);
        let mut i: usize = 0;
        while i < self.files.len()
            invariant
                p@ == path@,
                i <= self.files@.len(),
                forall|j: int| 0 <= j < i ==> (#[trigger] self.files@[j]).path@ != path@,
            decreases self.files@.len() - i,
        {
            if self.files[i].path == p {
                return Some(i);
            }
            i = i + 1;
        }
        None
    }

    /// Records the directory `path` and every directory above it that is
    /// not recorded yet, and returns its id; nothing for a relative path.
    /// A directory already recorded is returned as it is.
    pub fn add_collection_canon(&mut self, path: &str) -> (r: Option<CollectionID>)
        requires
            old(self).wf(),
        ensures
            final(self).wf(),
            r is Some <==> has_root(path@),
            r matches Some(id) ==> id < final(self).collections_view().len()
                && final(self).collections_view()[id as int].path@ == path@,
            old(self).collections_view().len() <= final(self).collections_view().len(),
            forall|i: int|
                0 <= i < old(self).collections_view().len() ==> final(self).collections_view()[i] == old(self).collections_view()[i],
            forall|i: int|
                old(self).collections_view().len() <= i < final(self).collections_view().len()
                    ==> ancestor_or_self(
                    (#[trigger] final(self).collections_view()[i]).path@,
                    path@,
                ) && !final(self).collections_view()[i].has_files,
            final(self).files_view() == old(self).files_view(),
            (exists|i: int|
                0 <= i < old(self).collections_view().len() && (#[trigger] old(self).collections_view()[i]).path@ == path@) ==> final(self).collections_view()
                == old(self).collections_view(),
        decreases path@.len(),
    {
        let cs = chars_of(path);
        if cs.len() == 0 || cs[0] != '/' {
            return None;
        }
        if let Some(i) = self.find_collection(path) {
            return Some(i);
        }
        let parent = parent_path(path);
        proof {
            lemma_parent_shorter(path@);
        }
        let ghost before = self.collections@;
        let pid: Option<usize> = match &parent {
            Some(pp) => self.add_collection_canon(pp.as_str()),
            None => None,
        };
        let ghost mid = self.collections@;
        let depth: usize = match pid {
            Some(q) => {
                assert(collection_ok(mid, q as int));
                self.collections[q].depth + 1
            },
            None => 1,
        };
        let id = self.collections.len();
        proof {
            assert forall|i: int| 0 <= i < mid.len() implies (#[trigger] mid[i]).path@ != path@ by {
                if i >= before.len() {
                    lemma_ancestor_shorter(mid[i].path@, parent_of(path@)->0);
                }
            }
        }
        self.collections.push(
            Collection {
                path: String::from_str(path),
                id,
                id_parent: pid,
                depth,
                has_files: false,
            },
        );
        proof {
            let cv = self.collections@;
            assert forall|i: int| 0 <= i < cv.len() implies #[trigger] collection_ok(cv, i) by {
                if i < mid.len() {
                    assert(collection_ok(mid, i));
                } else {
                    assert(i == id);
                    match pid {
                        Some(q) => {
                            assert(collection_ok(mid, q as int));
                            assert(cv[q as int] == mid[q as int]);
                        },
                        None => {},
                    }
                }
            }
            assert forall|j: int| 0 <= j < self.files@.len() implies #[trigger] file_ok(
                cv,
                self.files@,
                j,
            ) by {
                assert(file_ok(mid, self.files@, j));
            }
            assert forall|i: int| old(self).collections_view().len() <= i < cv.len() implies
                ancestor_or_self((#[trigger] cv[i]).path@, path@) by {
                if i < mid.len() {
                    assert(ancestor_or_self(mid[i].path@, parent_of(path@)->0));
                }
            }
        }
        Some(id)
    }

    /// Records the file `path`, and its directory and those above it, and
    /// marks its directory as holding files; nothing for a path without a
    /// parent directory. A file already recorded is returned as it is.
    pub fn add_file_canon(&mut self, path: &str) -> (r: Option<FileID>)
        requires
            old(self).wf(),
        ensures
            final(self).wf(),
            r is Some <==> parent_of(path@) is Some,
            r matches Some(id) ==> id < final(self).files_view().len()
                && final(self).files_view()[id as int].path@ == path@,
            old(self).files_view().len() <= final(self).files_view().len() <= old(self).files_view().len() + 1,
            forall|j: int|
                0 <= j < old(self).files_view().len() ==> final(self).files_view()[j] == old(self).files_view()[j],
            old(self).collections_view().len() <= final(self).collections_view().len(),
            forall|i: int|
                0 <= i < old(self).collections_view().len() ==> (#[trigger] final(self).collections_view()[i]).path == old(self).collections_view()[i].path
                    && final(self).collections_view()[i].id_parent == old(self).collections_view()[i].id_parent,
            (exists|j: int|
                0 <= j < old(self).files_view().len() && (#[trigger] old(self).files_view()[j]).path@ == path@) ==> final(self).collections_view() == old(self).collections_view() && final(self).files_view() == old(self).files_view(),
    {
        let parent = parent_path(path);
        let pp = match parent {
            Some(pp) => pp,
            None => return None,
        };
        if let Some(j) = self.find_file(path) {
            return Some(j);
        }
        proof {
            lemma_parent_shorter(path@);
        }
        let cid = match self.add_collection_canon(pp.as_str()) {
            Some(c) => c,
            None => return None,
        };
        let ghost mid = self.collections@;
        self.collections[cid].has_files = true;
        let id = self.files.len();
        let ghost fs0 = self.files@;
        self.files.push(File { path: String::from_str(path), id, id_collection: cid });
        proof {
            let cv = self.collections@;
            assert forall|i: int| 0 <= i < cv.len() implies #[trigger] collection_ok(cv, i) by {
                assert(collection_ok(mid, i));
            }
            assert forall|j: int| 0 <= j < self.files@.len() implies #[trigger] file_ok(
                cv,
                self.files@,
                j,
            ) by {
                if j < fs0.len() {
                    assert(file_ok(mid, fs0, j));
                }
            }
        }
        Some(id)
    }

    /// The collection that file `id` lies in.
    pub fn file_collection(&self, id: FileID) -> (r: CollectionID)
        requires
            id < self.files_view().len(),
        ensures
            r == self.files_view()[id as int].id_collection,
    {
        self.files[id].id_collection
    }

    /// Hands over the collections and the files.
    pub fn complete(self) -> (r: (Vec<Collection>, Vec<File>))
        ensures
            r.0@ == self.collections_view(),
            r.1@ == self.files_view(),
    {
        (self.collections, self.files)
    }
}

/// Collection `i` is where `wf` wants it.
pub open spec fn collection_ok(cs: Seq<Collection>, i: int) -> bool {
    let c = cs[i];
    &&& c.id == i
    &&& has_root(c.path@)
    &&& c.depth <= c.path@.len()
    &&& match c.id_parent {
        Some(q) => {
            &&& q < i
            &&& parent_of(c.path@) == Some(cs[q as int].path@)
            &&& c.depth == cs[q as int].depth + 1
        },
        None => parent_of(c.path@) is None && c.depth == 1,
    }
}

/// File `j` is where `wf` wants it.
pub open spec fn file_ok(cs: Seq<Collection>, fs: Seq<File>, j: int) -> bool {
    let f = fs[j];
    &&& f.id == j
    &&& f.id_collection < cs.len()
    &&& cs[f.id_collection as int].has_files
    &&& parent_of(f.path@) == Some(cs[f.id_collection as int].path@)
}

} // verus!
