//! Bundling into a Linux package the shared libraries its objects need that
//! neither the package nor the system provides. The caller reads each
//! object's needed libraries, tells which paths on the system exist, and
//! makes the copies; the bundler decides what is needed, where on the
//! system each needed library comes from, keeps track of what is bundled,
//! and of which objects have had their needs met.
use vstd::prelude::*;
use vstd::string::StringExecFns;

use crate::package::{
    Error, is_system, is_system_library, linux_directories, linux_library_directories, the_c_library_is_the_systems,
};
use crate::paths::{PathSet, join, path_join};
use crate::discovery::{find_present, first_present};
use crate::text::{lex_order, opt_view, sort_strings, views};

verus! {

/// What a bundler holds.
pub struct BundlerView {
    /// The library names the package provides, bundled ones included.
    pub present: Set<Seq<char>>,
    /// The objects whose needs are still to be met; the last comes next.
    pub worklist: Seq<Seq<char>>,
    /// The library names bundled, in the order they were bundled.
    pub bundled: Seq<Seq<char>>,
    /// The host architecture.
    pub arch: Seq<char>,
    /// The package's library directory.
    pub out_lib: Seq<char>,
    /// The library names the package provided before bundling.
    pub initial: Set<Seq<char>>,
    /// Every object that was ever to be processed: the objects the bundler
    /// started from, and the copy of each library bundled.
    pub entered: Set<Seq<char>>,
    /// The objects processed, each with the sonames it needs.
    pub done: Map<Seq<char>, Seq<Seq<char>>>,
}

/// The state of the closure of a package's library needs.
struct Closure {
    present: PathSet,
    worklist: Vec<String>,
    bundled: Vec<String>,
    arch: String,
    out_lib: String,
    initial: Ghost<Set<Seq<char>>>,
    entered: Ghost<Set<Seq<char>>>,
    done: Ghost<Map<Seq<char>, Seq<Seq<char>>>>,
}

impl View for Closure {
    type V = BundlerView;

    closed spec fn view(&self) -> BundlerView {
        BundlerView {
            present: self.present@,
            worklist: views(self.worklist@),
            bundled: views(self.bundled@),
            arch: self.arch@,
            out_lib: self.out_lib@,
            initial: self.initial@,
            entered: self.entered@,
            done: self.done@,
        }
    }
}

/// What holds of a bundler at every step: each name is bundled at most
/// once, and only a name the package did not provide and the system does
/// not provide; what is provided is what was provided before and what was
/// bundled; every object that entered is still to be processed or was
/// processed; and every need of a processed object is provided or a system
/// library.
pub open spec fn bundler_wf(v: BundlerView) -> bool {
    &&& forall|i: int, j: int| 0 <= i < j < v.bundled.len() ==> v.bundled[i] != v.bundled[j]
    &&& forall|i: int|
        0 <= i < v.bundled.len() ==> {
            &&& v.present.contains(#[trigger] v.bundled[i])
            &&& !v.initial.contains(v.bundled[i])
            &&& !is_system(v.bundled[i], v.arch)
        }
    &&& v.initial.subset_of(v.present)
    &&& forall|x: Seq<char>| #[trigger] v.present.contains(x) ==> v.initial.contains(x) || v.bundled.contains(x)
    &&& forall|i: int| 0 <= i < v.worklist.len() ==> v.entered.contains(#[trigger] v.worklist[i])
    &&& forall|o: Seq<char>| #[trigger]
        v.entered.contains(o) ==> v.worklist.contains(o) || v.done.dom().contains(o)
    &&& forall|o: Seq<char>, k: int|
        v.done.dom().contains(o) && 0 <= k < v.done[o].len() ==> v.present.contains(
            #[trigger] v.done[o][k],
        ) || is_system(v.done[o][k], v.arch)
}

/// A library the package must bundle: neither it nor the system provides it.
pub open spec fn is_needed(v: BundlerView, soname: Seq<char>) -> bool {
    !v.present.contains(soname) && !is_system(soname, v.arch)
}

/// The bundler after bundling `soname`: provided, bundled, and its copy in
/// the package to be processed in turn.
pub open spec fn with_bundled(v: BundlerView, soname: Seq<char>) -> BundlerView {
    BundlerView {
        present: v.present.insert(soname),
        worklist: v.worklist.push(path_join(v.out_lib, soname)),
        bundled: v.bundled.push(soname),
        entered: v.entered.insert(path_join(v.out_lib, soname)),
        ..v
    }
}

/// Where the system holds the library `soname`: the first of the system
/// library directories, in search order, that holds it (`existing` holds
/// the paths that exist).
pub open spec fn located_on_system(arch: Seq<char>, soname: Seq<char>, existing: Set<Seq<char>>) -> Option<
    Seq<char>,
> {
    first_present(linux_library_directories(arch).map_values(|d: Seq<char>| path_join(d, soname)), existing)
}

/// The needs of an object met in order: a needed soname is bundled from
/// where the system holds it, one the system does not hold stops the rest.
/// The result is the bundler after, the copies to make (source,
/// destination), and the soname that was not found, if one was not.
pub open spec fn settle(v: BundlerView, needs: Seq<Seq<char>>, existing: Set<Seq<char>>) -> (
    BundlerView,
    Seq<(Seq<char>, Seq<char>)>,
    Option<Seq<char>>,
)
    decreases needs.len(),
{
    if needs.len() == 0 {
        (v, seq![], None)
    } else {
        let (w, copies, missing) = settle(v, needs.drop_last(), existing);
        let soname = needs.last();
        if missing is Some || !is_needed(w, soname) {
            (w, copies, missing)
        } else {
            match located_on_system(w.arch, soname, existing) {
                Some(l) => (with_bundled(w, soname), copies.push((l, path_join(w.out_lib, soname))), None),
                None => (w, copies, Some(soname)),
            }
        }
    }
}

/// The views of a list of copies.
pub open spec fn pair_views(v: Seq<(String, String)>) -> Seq<(Seq<char>, Seq<char>)> {
    v.map_values(|c: (String, String)| (c.0@, c.1@))
}

proof fn lemma_settle_stops(v: BundlerView, needs: Seq<Seq<char>>, existing: Set<Seq<char>>, k: int)
    requires
        0 <= k <= needs.len(),
        settle(v, needs.take(k), existing).2 is Some,
    ensures
        settle(v, needs, existing) == settle(v, needs.take(k), existing),
    decreases needs.len(),
{
    if needs.len() == k {
        assert(needs.take(k) =~= needs);
    } else {
        assert(needs.drop_last().take(k) =~= needs.take(k));
        lemma_settle_stops(v, needs.drop_last(), existing, k);
    }
}

proof fn lemma_settle_keeps(v: BundlerView, needs: Seq<Seq<char>>, existing: Set<Seq<char>>)
    requires
        bundler_wf(v),
    ensures
        ({
            let (w, copies, missing) = settle(v, needs, existing);
            &&& bundler_wf(w)
            &&& v.present.subset_of(w.present)
            &&& w.arch == v.arch
            &&& w.out_lib == v.out_lib
            &&& w.initial == v.initial
            &&& w.done == v.done
            &&& w.worklist.len() >= v.worklist.len()
            &&& forall|i: int| 0 <= i < v.worklist.len() ==> w.worklist[i] == v.worklist[i]
            &&& missing is None ==> forall|k: int|
                0 <= k < needs.len() ==> w.present.contains(#[trigger] needs[k]) || is_system(needs[k], v.arch)
        }),
    decreases needs.len(),
{
    if needs.len() > 0 {
        let prior = needs.drop_last();
        lemma_settle_keeps(v, prior, existing);
        let (w, copies, missing) = settle(v, prior, existing);
        let soname = needs.last();
        if missing is None && is_needed(w, soname) && located_on_system(w.arch, soname, existing) is Some {
            let u = with_bundled(w, soname);
            assert forall|i: int, j: int| 0 <= i < j < u.bundled.len() implies u.bundled[i] != u.bundled[j] by {
                if j == w.bundled.len() {
                    assert(w.present.contains(w.bundled[i]));
                }
            }
            assert forall|x: Seq<char>| #[trigger] u.present.contains(x) implies u.initial.contains(x)
                || u.bundled.contains(x) by {
                if x == soname {
                    assert(u.bundled[w.bundled.len() as int] == soname);
                } else {
                    assert(w.present.contains(x));
                    if w.bundled.contains(x) {
                        let i = choose|i: int| 0 <= i < w.bundled.len() && w.bundled[i] == x;
                        assert(u.bundled[i] == x);
                    }
                }
            }
            assert forall|o: Seq<char>| #[trigger] u.entered.contains(o) implies u.worklist.contains(o)
                || u.done.dom().contains(o) by {
                if o == path_join(w.out_lib, soname) {
                    assert(u.worklist[w.worklist.len() as int] == o);
                } else if w.worklist.contains(o) {
                    let i = choose|i: int| 0 <= i < w.worklist.len() && w.worklist[i] == o;
                    assert(u.worklist[i] == o);
                }
            }
            assert forall|i: int| 0 <= i < u.worklist.len() implies u.entered.contains(#[trigger] u.worklist[i]) by {
                if i < w.worklist.len() {
                    assert(u.worklist[i] == w.worklist[i]);
                }
            }
        }
        assert forall|k: int| 0 <= k < needs.len() && settle(v, needs, existing).2 is None implies settle(
            v,
            needs,
            existing,
        ).0.present.contains(#[trigger] needs[k]) || is_system(needs[k], v.arch) by {
            if k < prior.len() {
                assert(needs[k] == prior[k]);
            }
        }
    }
}

impl Closure {
    /// A bundler for a package that provides `present`, starting from
    /// `objects` (the packaged binary and libraries), copying into `out_lib`,
    /// on the architecture `arch`.
    fn new(present: PathSet, objects: Vec<String>, out_lib: String, arch: String) -> (r: Closure)
        ensures
            bundler_wf(r@),
            r@.present == present@,
            r@.initial == present@,
            r@.worklist == views(objects@),
            r@.bundled == Seq::<Seq<char>>::empty(),
            r@.arch == arch@,
            r@.out_lib == out_lib@,
            r@.entered == views(objects@).to_set(),
            r@.done == Map::<Seq<char>, Seq<Seq<char>>>::empty(),
    {
        let ghost initial = present@;
        let ghost entered = views(objects@).to_set();
        let r = Closure {
            present,
            worklist: objects,
            bundled: Vec::new(),
            arch,
            out_lib,
            initial: Ghost(initial),
            entered: Ghost(entered),
            done: Ghost(Map::empty()),
        };
        assert(views(r.bundled@) =~= Seq::<Seq<char>>::empty());
        assert forall|o: Seq<char>| #[trigger] r@.entered.contains(o) implies r@.worklist.contains(o) by {}
        r
    }

    /// The next object whose needs are to be met, if any is left.
    fn pending(&self) -> (r: Option<String>)
        ensures
            match r {
                Some(o) => self@.worklist.len() > 0 && o@ == self@.worklist.last(),
                None => self@.worklist.len() == 0,
            },
    {
        let n = self.worklist.len();
        if n == 0 {
            None
        } else {
            Some(self.worklist[n - 1].clone())
        }
    }

    /// Whether the library `soname` must be bundled.
    fn needs(&self, soname: &String) -> (r: bool)
        ensures
            r == is_needed(self@, soname@),
    {
        !self.present.contains(soname) && !is_system_library(soname.as_str(), self.arch.as_str())
    }

    /// Where to look for the library `soname` on the system, in order.
    fn candidates(&self, soname: &str) -> (r: Vec<String>)
        ensures
            views(r@) == linux_library_directories(self@.arch).map_values(
                |d: Seq<char>| path_join(d, soname@),
            ),
    {
        let dirs = linux_directories(self.arch.as_str());
        let ghost ds = views(dirs@);
        let mut r: Vec<String> = Vec::new();
        let n = dirs.len();
        for i in 0..n
            invariant
                n == dirs.len(),
                ds == views(dirs@),
                views(r@) == ds.take(i as int).map_values(|d: Seq<char>| path_join(d, soname@)),
        {
            let ghost before = views(r@);
            let p = join(dirs[i].as_str(), soname);
            r.push(p);
            assert(views(r@) =~= before.push(p@));
            assert(ds.take(i + 1) =~= ds.take(i as int).push(ds[i as int]));
            assert(views(r@) =~= ds.take(i + 1).map_values(|d: Seq<char>| path_join(d, soname@)));
        }
        assert(ds.take(n as int) =~= ds);
        r
    }

    /// Where the system holds the library `soname`: the first of its
    /// candidates, in search order, that exists (`existing` holds the
    /// candidates that do).
    fn locate(&self, soname: &str, existing: &PathSet) -> (r: Option<String>)
        ensures
            opt_view(r) == located_on_system(self@.arch, soname@, existing@),
    {
        find_present(&self.candidates(soname), existing)
    }

    /// Meets the needs of the next object, as `Bundler::process` says.
    fn process(&mut self, needs: &Vec<String>, existing: &PathSet) -> (r: (
        Vec<(String, String)>,
        Result<(), Error>,
    ))
        requires
            bundler_wf(old(self)@),
            old(self)@.worklist.len() > 0,
        ensures
            bundler_wf(final(self)@),
            ({
                let object = old(self)@.worklist.last();
                let (w, copies, missing) = settle(old(self)@, views(needs@), existing@);
                &&& pair_views(r.0@) == copies
                &&& match missing {
                    None => r.1 is Ok && final(self)@ == (BundlerView {
                        worklist: w.worklist.remove(old(self)@.worklist.len() - 1),
                        done: w.done.insert(object, views(needs@)),
                        ..w
                    }),
                    Some(s) => final(self)@ == w && (r.1 matches Err(
                        Error::UnresolvedDependency { library, dependency },
                    ) && library@ == object && dependency@ == s),
                }
            }),
    {
        let k = self.worklist.len() - 1;
        let object = self.worklist[k].clone();
        let ghost start = self@;
        let ghost all = views(needs@);
        let mut copies: Vec<(String, String)> = Vec::new();
        assert(pair_views(copies@) =~= Seq::<(Seq<char>, Seq<char>)>::empty());
        assert(all.take(0) =~= Seq::<Seq<char>>::empty());
        let n = needs.len();
        for i in 0..n
            invariant
                n == needs.len(),
                all == views(needs@),
                start == old(self)@,
                bundler_wf(start),
                k == start.worklist.len() - 1,
                object@ == start.worklist.last(),
                settle(start, all.take(i as int), existing@) == (self@, pair_views(copies@), None::<Seq<char>>),
        {
            let ghost t = all.take(i + 1);
            assert(t.drop_last() =~= all.take(i as int));
            assert(t.last() == all[i as int]);
            let ghost cur = self@;
            proof {
                lemma_settle_keeps(start, all.take(i as int), existing@);
            }
            let soname = &needs[i];
            if self.needs(soname) {
                match self.locate(soname.as_str(), existing) {
                    Some(source) => {
                        let destination = join(self.out_lib.as_str(), soname.as_str());
                        let ghost c0 = copies@;
                        let ghost src = source@;
                        self.present.insert(soname.clone());
                        self.bundled.push(soname.clone());
                        self.worklist.push(destination.clone());
                        proof {
                            self.entered@ = self.entered@.insert(destination@);
                        }
                        copies.push((source, destination));
                        assert(pair_views(copies@) =~= pair_views(c0).push((src, path_join(cur.out_lib, soname@))));
                        assert(self@ == with_bundled(cur, soname@)) by {
                            assert(self@.worklist =~= cur.worklist.push(path_join(cur.out_lib, soname@)));
                            assert(self@.bundled =~= cur.bundled.push(soname@));
                        }
                    },
                    None => {
                        proof {
                            lemma_settle_stops(start, all, existing@, i + 1);
                            lemma_settle_keeps(start, all, existing@);
                        }
                        let e = Error::UnresolvedDependency {
                            library: object.clone(),
                            dependency: soname.clone(),
                        };
                        return (copies, Err(e));
                    },
                }
            }
        }
        assert(all.take(n as int) =~= all);
        proof {
            lemma_settle_keeps(start, all, existing@);
        }
        let ghost w = self@;
        let ghost before = views(self.worklist@);
        let removed = self.worklist.remove(k);
        assert(views(self.worklist@) =~= before.remove(k as int));
        proof {
            self.done@ = self.done@.insert(object@, all);
        }
        proof {
            let u = self@;
            assert forall|i: int| 0 <= i < u.worklist.len() implies u.entered.contains(#[trigger] u.worklist[i]) by {
                if i < k {
                    assert(u.worklist[i] == w.worklist[i]);
                } else {
                    assert(u.worklist[i] == w.worklist[i + 1]);
                }
            }
            assert forall|o: Seq<char>| #[trigger] u.entered.contains(o) implies u.worklist.contains(o)
                || u.done.dom().contains(o) by {
                if o != object@ && !w.done.dom().contains(o) {
                    let i = choose|i: int| 0 <= i < w.worklist.len() && w.worklist[i] == o;
                    if i < k {
                        assert(u.worklist[i] == o);
                    } else if i > k {
                        assert(u.worklist[i - 1] == o);
                    } else {
                        assert(w.worklist[k as int] == start.worklist[k as int]);
                    }
                }
            }
            assert forall|o: Seq<char>, j: int|
                u.done.dom().contains(o) && 0 <= j < u.done[o].len() implies u.present.contains(
                #[trigger] u.done[o][j],
            ) || is_system(u.done[o][j], u.arch) by {
                if o == object@ {
                    assert(u.done[o][j] == all[j]);
                } else {
                    assert(u.done[o] == w.done[o]);
                }
            }
        }
        (copies, Ok(()))
    }

    /// The library names bundled, in name order.
    fn finish(self) -> (r: Vec<String>)
        ensures
            views(r@) == self@.bundled.sort_by(lex_order()),
    {
        sort_strings(&self.bundled)
    }
}

/// The closure of a package's library needs.
pub struct Bundler {
    state: Closure,
}

impl View for Bundler {
    type V = BundlerView;

    closed spec fn view(&self) -> BundlerView {
        self.state@
    }
}

impl Bundler {
    /// A bundler is well formed at every step (see `bundler_wf`).
    #[verifier::type_invariant]
    spec fn keeps_its_promises(self) -> bool {
        bundler_wf(self.state@)
    }

    /// A bundler for a package that provides `present`, starting from
    /// `objects` (the packaged binary and libraries), copying into `out_lib`,
    /// on the architecture `arch`.
    pub fn new(present: PathSet, objects: Vec<String>, out_lib: String, arch: String) -> (r: Bundler)
        ensures
            bundler_wf(r@),
            r@.present == present@,
            r@.initial == present@,
            r@.worklist == views(objects@),
            r@.bundled == Seq::<Seq<char>>::empty(),
            r@.arch == arch@,
            r@.out_lib == out_lib@,
            r@.entered == views(objects@).to_set(),
            r@.done == Map::<Seq<char>, Seq<Seq<char>>>::empty(),
    {
        Bundler { state: Closure::new(present, objects, out_lib, arch) }
    }

    /// The next object whose needs are to be met, if any is left.
    pub fn pending(&self) -> (r: Option<String>)
        ensures
            match r {
                Some(o) => self@.worklist.len() > 0 && o@ == self@.worklist.last(),
                None => self@.worklist.len() == 0,
            },
    {
        self.state.pending()
    }

    /// Whether the library `soname` must be bundled.
    pub fn needs(&self, soname: &String) -> (r: bool)
        ensures
            r == is_needed(self@, soname@),
    {
        self.state.needs(soname)
    }

    /// Where to look for the library `soname` on the system, in order.
    pub fn candidates(&self, soname: &str) -> (r: Vec<String>)
        ensures
            views(r@) == linux_library_directories(self@.arch).map_values(
                |d: Seq<char>| path_join(d, soname@),
            ),
    {
        self.state.candidates(soname)
    }

    /// Where the system holds the library `soname`: the first of its
    /// candidates, in search order, that exists (`existing` holds the
    /// candidates that do).
    pub fn locate(&self, soname: &str, existing: &PathSet) -> (r: Option<String>)
        ensures
            opt_view(r) == located_on_system(self@.arch, soname@, existing@),
    {
        self.state.locate(soname, existing)
    }

    /// Meets the needs of the next object (`needs`: the sonames it needs, in
    /// order; `existing` holds the paths on the system that exist): each
    /// soname still needed is bundled from the first system library
    /// directory that holds it (see `locate`), and its copy joins the
    /// worklist; the object then leaves the worklist as processed. A needed
    /// soname that no such directory holds is `UnresolvedDependency`: the
    /// object stays on the worklist, and what was bundled before stays. The
    /// copies to make (source, destination) come with the outcome.
    pub fn process(&mut self, needs: &Vec<String>, existing: &PathSet) -> (r: (
        Vec<(String, String)>,
        Result<(), Error>,
    ))
        requires
            old(self)@.worklist.len() > 0,
        ensures
            bundler_wf(final(self)@),
            ({
                let object = old(self)@.worklist.last();
                let (w, copies, missing) = settle(old(self)@, views(needs@), existing@);
                &&& pair_views(r.0@) == copies
                &&& match missing {
                    None => r.1 is Ok && final(self)@ == (BundlerView {
                        worklist: w.worklist.remove(old(self)@.worklist.len() - 1),
                        done: w.done.insert(object, views(needs@)),
                        ..w
                    }),
                    Some(s) => final(self)@ == w && (r.1 matches Err(
                        Error::UnresolvedDependency { library, dependency },
                    ) && library@ == object && dependency@ == s),
                }
            }),
    {
        proof {
            use_type_invariant(&*self);
        }
        let mut state = Closure::new(PathSet::new(), Vec::new(), String::from_str(""), String::from_str(""));
        std::mem::swap(&mut state, &mut self.state);
        let r = state.process(needs, existing);
        self.state = state;
        r
    }

    /// The library names bundled, in name order.
    pub fn finish(self) -> (r: Vec<String>)
        ensures
            views(r@) == self@.bundled.sort_by(lex_order()),
    {
        self.state.finish()
    }

}

/// Bundling keeps its promises at every step: no library is bundled twice,
/// none that the package already provided, none that the system provides;
/// everything bundled is provided, and so is everything provided before.
pub proof fn bundling_is_fresh(b: BundlerView)
    requires
        bundler_wf(b),
    ensures
        b.bundled.no_duplicates(),
        forall|i: int| 0 <= i < b.bundled.len() ==> !b.initial.contains(#[trigger] b.bundled[i]),
        forall|i: int| 0 <= i < b.bundled.len() ==> !is_system(#[trigger] b.bundled[i], b.arch),
        forall|i: int| 0 <= i < b.bundled.len() ==> b.present.contains(#[trigger] b.bundled[i]),
        b.initial.subset_of(b.present),
{
}

/// The system's own libraries are never bundled: none of the C library and
/// its companions is ever needed, and none is among the bundled libraries.
pub proof fn the_c_library_is_never_bundled(b: BundlerView)
    requires
        bundler_wf(b),
    ensures
        forall|n: Seq<char>|
            #![trigger b.bundled.contains(n)]
            n == "libc.so.6"@ || n == "libdl.so.2"@ || n == "libgcc_s.so.1"@ || n == "libm.so.6"@ || n
                == "libpthread.so.0"@ || n == "libresolv.so.2"@ || n == "librt.so.1"@ || n == "libutil.so.1"@
                || n == "linux-vdso.so.1"@ ==> !is_needed(b, n) && !b.bundled.contains(n),
{
    the_c_library_is_the_systems(b.arch);
    assert forall|n: Seq<char>|
        #![trigger b.bundled.contains(n)]
        n == "libc.so.6"@ || n == "libdl.so.2"@ || n == "libgcc_s.so.1"@ || n == "libm.so.6"@ || n
            == "libpthread.so.0"@ || n == "libresolv.so.2"@ || n == "librt.so.1"@ || n == "libutil.so.1"@
            || n == "linux-vdso.so.1"@ implies !is_needed(b, n) && !b.bundled.contains(n) by {
        assert(is_system(n, b.arch));
        if b.bundled.contains(n) {
            let i = choose|i: int| 0 <= i < b.bundled.len() && b.bundled[i] == n;
            assert(!is_system(b.bundled[i], b.arch));
        }
    }
}

/// Bundling a needed library settles that need for good: afterwards the
/// library is no longer needed, and nothing that was not needed before has
/// become needed.
pub proof fn bundling_settles_a_need(b: BundlerView, soname: Seq<char>)
    requires
        is_needed(b, soname),
    ensures
        !is_needed(with_bundled(b, soname), soname),
        forall|x: Seq<char>| #[trigger] is_needed(with_bundled(b, soname), x) ==> is_needed(b, x),
{
}

/// Once no object is left to process, the package is closed: every object
/// that entered (those bundling started from, and every bundled library's
/// copy) was processed, and each soname it needs is provided by the package
/// (as it was before, or bundled) or is a system library.
pub proof fn bundling_closes_the_package(b: BundlerView)
    requires
        bundler_wf(b),
        b.worklist.len() == 0,
    ensures
        forall|o: Seq<char>| #[trigger] b.entered.contains(o) ==> b.done.dom().contains(o),
        forall|o: Seq<char>, k: int|
            b.entered.contains(o) && 0 <= k < b.done[o].len() ==> {
                let s = #[trigger] b.done[o][k];
                ||| b.initial.contains(s)
                ||| b.bundled.contains(s)
                ||| is_system(s, b.arch)
            },
{
    assert forall|o: Seq<char>| #[trigger] b.entered.contains(o) implies b.done.dom().contains(o) by {
        assert(!b.worklist.contains(o));
    }
    assert forall|o: Seq<char>, k: int| b.entered.contains(o) && 0 <= k < b.done[o].len() implies {
        let s = #[trigger] b.done[o][k];
        ||| b.initial.contains(s)
        ||| b.bundled.contains(s)
        ||| is_system(s, b.arch)
    } by {
        assert(b.done.dom().contains(o));
        let s = b.done[o][k];
        if b.present.contains(s) {
        }
    }
}

} // verus!
