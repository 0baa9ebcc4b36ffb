//! The assembly of a package, stage by stage. The caller carries out each
//! stage on the file system; the run decides which stage comes next, keeps
//! what the stages found, and gives the summary once every stage is done.
use vstd::prelude::*;
use vstd::string::StringExecFns;

use crate::os::Os;
use crate::package::{Packager, PackagerView, Stage, Summary, package_stages};
use crate::text::views;

verus! {

/// What a run holds.
pub struct RunView {
    /// The packager it assembles for.
    pub packager: PackagerView,
    /// How many of the packager's stages are done.
    pub completed: nat,
    /// How many libraries the library stage copied.
    pub libraries: usize,
    /// How many analyses the library stage copied.
    pub analyses: usize,
    /// The libraries the bundling stage bundled.
    pub bundled: Seq<Seq<char>>,
}

/// The stage a run is at, if any is left.
pub open spec fn current(v: RunView) -> Option<Stage> {
    if v.completed < package_stages(v.packager).len() {
        Some(package_stages(v.packager)[v.completed as int])
    } else {
        None
    }
}

/// Whether the first `completed` stages include `stage`.
pub open spec fn has_run(v: RunView, stage: Stage) -> bool {
    package_stages(v.packager).take(v.completed as int).contains(stage)
}

/// The assembly of one package.
pub struct PackageRun {
    stages: Vec<Stage>,
    completed: usize,
    libraries: usize,
    analyses: usize,
    bundled: Vec<String>,
    out: String,
    strip: bool,
    packager: Ghost<PackagerView>,
}

impl View for PackageRun {
    type V = RunView;

    closed spec fn view(&self) -> RunView {
        RunView {
            packager: self.packager@,
            completed: self.completed as nat,
            libraries: self.libraries,
            analyses: self.analyses,
            bundled: views(self.bundled@),
        }
    }
}

impl PackageRun {
    /// What holds of a run at every step: it follows its packager's stages;
    /// counts only come from the library stage, and bundled libraries only
    /// from the bundling stage.
    #[verifier::type_invariant]
    spec fn follows_the_stages(self) -> bool {
        &&& self.stages@ == package_stages(self.packager@)
        &&& self.completed <= self.stages@.len()
        &&& self.out@ == self.packager@.out
        &&& self.strip == self.packager@.strip
        &&& !has_run(self@, Stage::CopyLibraries) ==> self.libraries == 0 && self.analyses == 0
        &&& !has_run(self@, Stage::BundleAndRelocate) ==> self.bundled@.len() == 0
    }

    /// A run for `p` with no stage done yet.
    pub fn new(p: &Packager) -> (r: PackageRun)
        ensures
            r@ == (RunView {
                packager: p@,
                completed: 0,
                libraries: 0,
                analyses: 0,
                bundled: seq![],
            }),
    {
        let r = PackageRun {
            stages: p.stages(),
            completed: 0,
            libraries: 0,
            analyses: 0,
            bundled: Vec::new(),
            out: String::from_str(p.out()),
            strip: p.strip(),
            packager: Ghost(p@),
        };
        assert(views(r.bundled@) =~= Seq::<Seq<char>>::empty());
        r
    }

    /// The stage to carry out next, if any is left.
    pub fn next_stage(&self) -> (r: Option<Stage>)
        ensures
            r == current(self@),
    {
        proof {
            use_type_invariant(self);
        }
        if self.completed < self.stages.len() {
            Some(self.stages[self.completed])
        } else {
            None
        }
    }

    proof fn lemma_one_more(v: RunView)
        requires
            v.completed < package_stages(v.packager).len(),
        ensures
            forall|s: Stage|
                #![trigger has_run(RunView { completed: v.completed + 1, ..v }, s)]
                has_run(RunView { completed: v.completed + 1, ..v }, s) <==> (has_run(v, s) || s
                    == package_stages(v.packager)[v.completed as int]),
    {
        let stages = package_stages(v.packager);
        let c = v.completed as int;
        let before = stages.take(c);
        let after = stages.take(c + 1);
        assert(after =~= before.push(stages[c]));
        assert forall|s: Stage| #[trigger] after.contains(s) <==> (before.contains(s) || s == stages[c]) by {
            if after.contains(s) {
                let i = choose|i: int| 0 <= i < after.len() && after[i] == s;
                if i < c {
                    assert(before[i] == s);
                }
            }
            if before.contains(s) {
                let i = choose|i: int| 0 <= i < before.len() && before[i] == s;
                assert(after[i] == s);
            }
            if s == stages[c] {
                assert(after[c] == s);
            }
        }
        assert forall|s: Stage|
            #![trigger has_run(RunView { completed: v.completed + 1, ..v }, s)]
            has_run(RunView { completed: v.completed + 1, ..v }, s) <==> (has_run(v, s) || s == stages[c]) by {
            assert(after.contains(s) <==> (before.contains(s) || s == stages[c]));
        }
    }

    /// The current stage is done, one that finds nothing the summary
    /// reports (not the library stage, not the bundling stage).
    pub fn stage_done(&mut self)
        requires
            current(old(self)@) is Some,
            current(old(self)@)->0 != Stage::CopyLibraries,
            current(old(self)@)->0 != Stage::BundleAndRelocate,
        ensures
            final(self)@ == (RunView { completed: old(self)@.completed + 1, ..old(self)@ }),
    {
        proof {
            use_type_invariant(&*self);
            Self::lemma_one_more(self@);
        }
        self.completed = self.completed + 1;
    }

    /// The library stage is done: it copied `libraries` libraries and
    /// `analyses` analyses.
    pub fn libraries_copied(&mut self, libraries: usize, analyses: usize)
        requires
            current(old(self)@) == Some(Stage::CopyLibraries),
        ensures
            final(self)@ == (RunView {
                completed: old(self)@.completed + 1,
                libraries,
                analyses,
                ..old(self)@
            }),
    {
        proof {
            use_type_invariant(&*self);
            Self::lemma_one_more(self@);
        }
        self.completed = self.completed + 1;
        self.libraries = libraries;
        self.analyses = analyses;
    }

    /// The bundling stage is done: it bundled `bundled`.
    pub fn libraries_bundled(&mut self, bundled: Vec<String>)
        requires
            current(old(self)@) == Some(Stage::BundleAndRelocate),
        ensures
            final(self)@ == (RunView {
                completed: old(self)@.completed + 1,
                bundled: views(bundled@),
                ..old(self)@
            }),
    {
        proof {
            use_type_invariant(&*self);
            Self::lemma_one_more(self@);
        }
        self.completed = self.completed + 1;
        self.bundled = bundled;
    }

    /// The summary of a run whose every stage is done: the package
    /// directory and whether it was stripped come from the packager, the
    /// counts from the library stage, the bundled libraries from the
    /// bundling stage, so that a macOS package bundles nothing.
    pub fn summary(self) -> (r: Summary)
        requires
            current(self@) is None,
        ensures
            r.out@ == self@.packager.out,
            r.stripped == self@.packager.strip,
            r.libraries == self@.libraries,
            r.analyses == self@.analyses,
            views(r.bundled@) == self@.bundled,
            self@.packager.os == Os::MacOs ==> r.bundled@.len() == 0,
    {
        proof {
            use_type_invariant(&self);
            let stages = package_stages(self@.packager);
            assert(stages.take(self@.completed as int) =~= stages);
            if self@.packager.os == Os::MacOs {
                assert forall|i: int| 0 <= i < stages.len() implies stages[i] != Stage::BundleAndRelocate by {
                    if self@.packager.strip {
                        assert(stages =~= seq![
                            Stage::Validate,
                            Stage::PrepareOut,
                            Stage::CopyBinary,
                            Stage::CopyLibraries,
                            Stage::CopyShare,
                            Stage::Strip,
                            Stage::Verify,
                        ]);
                    } else {
                        assert(stages =~= seq![
                            Stage::Validate,
                            Stage::PrepareOut,
                            Stage::CopyBinary,
                            Stage::CopyLibraries,
                            Stage::CopyShare,
                            Stage::Verify,
                        ]);
                    }
                }
            }
        }
        Summary {
            out: self.out,
            libraries: self.libraries,
            analyses: self.analyses,
            bundled: self.bundled,
            stripped: self.strip,
        }
    }
}

} // verus!
