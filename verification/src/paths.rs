//! Paths held as text, and the set of paths that a probe of the file system
//! found to exist.
use vstd::prelude::*;
use vstd::string::StringExecFns;

use crate::text::{chars_of, concat, push_char};

verus! {

/// `Path::join` on Unix: an absolute `rel` replaces `base`; otherwise `rel`
/// follows `base`, with a `'/'` between them unless `base` is empty or
/// already ends with one.
pub open spec fn path_join(base: Seq<char>, rel: Seq<char>) -> Seq<char> {
    if rel.len() > 0 && rel[0] == '/' {
        rel
    } else if base.len() == 0 || base.last() == '/' {
        base + rel
    } else {
        base + seq!['/'] + rel
    }
}

/// `Path::is_absolute` on Unix: the path starts at the root.
pub open spec fn is_absolute(p: Seq<char>) -> bool {
    p.len() > 0 && p[0] == '/'
}

/// `Path::join`.
pub fn join(base: &str, rel: &str) -> (r: String)
    ensures
        r@ == path_join(base@, rel@),
{
    let b = chars_of(base);
    let rc = chars_of(rel);
    if rc.len() > 0 && rc[0] == '/' {
        String::from_str(rel)
    } else if b.len() == 0 || b[b.len() - 1] == '/' {
        concat(base, rel)
    } else {
        let mut s = String::from_str(base);
        push_char(&mut s, '/');
        s.append(rel);
        s
    }
}

/// `Path::is_absolute`.
pub fn is_absolute_exec(p: &str) -> (r: bool)
    ensures
        r == is_absolute(p@),
{
    let c = chars_of(p);
    c.len() > 0 && c[0] == '/'
}

/// What `Path::parent` gives for a path.
pub uninterp spec fn path_parent(path: Seq<char>) -> Option<Seq<char>>;

/// What `Path::file_name` gives for a path.
pub uninterp spec fn path_file_name(path: Seq<char>) -> Option<Seq<char>>;

/// Whether `Path`'s `==`, which compares paths component by component,
/// holds between two paths.
pub uninterp spec fn same_path(a: Seq<char>, b: Seq<char>) -> bool;

/// Calls `Path::parent`: the path without its last component, if it has one.
/// The contract ties the result to `path_parent` of the argument and says
/// nothing more of it.
#[verifier::external_body]
pub(crate) fn parent(path: &str) -> (r: Option<String>)
    ensures
        match r {
            Some(p) => path_parent(path@) == Some(p@),
            None => path_parent(path@) is None,
        },
{
    std::path::Path::new(path).parent().map(|p| p.to_string_lossy().into_owned())
}

/// Calls `Path::file_name`: the last component of a path, unless the path
/// ends in `..` or is a root. The contract ties the result to
/// `path_file_name` of the argument and says nothing more of it.
#[verifier::external_body]
pub(crate) fn file_name(path: &str) -> (r: Option<String>)
    ensures
        match r {
            Some(p) => path_file_name(path@) == Some(p@),
            None => path_file_name(path@) is None,
        },
{
    std::path::Path::new(path).file_name().map(|p| p.to_string_lossy().into_owned())
}

/// Calls `Path`'s `==`. Equal text is an equal path (`Eq` is reflexive); the
/// contract says nothing more of paths whose text differs.
#[verifier::external_body]
pub(crate) fn paths_equal(a: &str, b: &str) -> (r: bool)
    ensures
        r == same_path(a@, b@),
        a@ == b@ ==> r,
{
    std::path::Path::new(a) == std::path::Path::new(b)
}

/// The paths that a probe of the file system found to exist.
pub struct PathSet {
    paths: Vec<String>,
}

impl View for PathSet {
    type V = Set<Seq<char>>;

    closed spec fn view(&self) -> Set<Seq<char>> {
        Set::new(|p: Seq<char>| exists|i: int| 0 <= i < self.paths@.len() && self.paths@[i]@ == p)
    }
}

impl PathSet {
    /// No path at all.
    pub fn new() -> (r: PathSet)
        ensures
            r@ == Set::<Seq<char>>::empty(),
    {
        let r = PathSet { paths: Vec::new() };
        assert(r@ =~= Set::<Seq<char>>::empty());
        r
    }

    /// Records that `path` exists.
    pub fn insert(&mut self, path: String)
        ensures
            final(self)@ == old(self)@.insert(path@),
    {
        let ghost before = self.paths@;
        let ghost p = path@;
        self.paths.push(path);
        assert(self@ =~= old(self)@.insert(p)) by {
            assert forall|q: Seq<char>| self@.contains(q) implies old(self)@.insert(p).contains(q) by {
                let i = choose|i: int| 0 <= i < self.paths@.len() && self.paths@[i]@ == q;
                if i < before.len() {
                    assert(before[i] == self.paths@[i]);
                }
            }
            assert forall|q: Seq<char>| old(self)@.insert(p).contains(q) implies self@.contains(q) by {
                if q == p {
                    assert(self.paths@[before.len() as int]@ == p);
                } else {
                    let i = choose|i: int| 0 <= i < before.len() && before[i]@ == q;
                    assert(self.paths@[i] == before[i]);
                }
            }
        }
    }

    /// Whether `path` was found to exist.
    pub fn contains(&self, path: &String) -> (r: bool)
        ensures
            r == self@.contains(path@),
    {
        let n = self.paths.len();
        for i in 0..n
            invariant
                n == self.paths@.len(),
                forall|j: int| 0 <= j < i ==> self.paths@[j]@ != path@,
        {
            if self.paths[i] == *path {
                return true;
            }
        }
        false
    }
}

} // verus!
