//! Provisioning the revng SDK into a cache: what is needed, where it goes,
//! and the build steps that produce it.
use vstd::prelude::*;
use vstd::string::StringExecFns;

use crate::error::Error;
use crate::os::Os;
use crate::paths::{PathSet, join, parent, path_join, path_parent};
use crate::text::{
    after_last_char, chars_of, concat, concat3, has_infix, join_with, lemma_join_cons,
    lemma_join_split, opt_view, slice_of, split_on, string_of, take_after_last_char, views,
};

verus! {

/// A tool or header that provisioning needs, with how to install it.
#[derive(Clone, Copy, Debug)]
pub struct Prerequisite {
    pub name: &'static str,
    pub brew: Option<&'static str>,
    pub apt: Option<&'static str>,
}

/// The install hint of a prerequisite for an operating system.
pub open spec fn hint_for(p: Prerequisite, os: Os) -> Option<&'static str> {
    match os {
        Os::Linux => p.apt,
        Os::MacOs => p.brew,
    }
}

impl Prerequisite {
    /// How to install the prerequisite on `os`, if anything is known.
    pub fn hint(&self, os: Os) -> (r: Option<&'static str>)
        ensures
            r == hint_for(*self, os),
    {
        match os {
            Os::Linux => self.apt,
            Os::MacOs => self.brew,
        }
    }
}

/// The prerequisites that provisioning found missing.
#[derive(Debug)]
pub struct MissingPrerequisites {
    missing: Vec<Prerequisite>,
    os: Os,
}

/// One line of the report: the name, then the hint in brackets if there is one.
pub open spec fn report_line(p: Prerequisite, os: Os) -> Seq<char> {
    "\n  "@ + p.name@ + match hint_for(p, os) {
        Some(h) => " ("@ + h@ + ")"@,
        None => Seq::<char>::empty(),
    }
}

/// The lines of the report, in order.
pub open spec fn report_lines(missing: Seq<Prerequisite>, os: Os) -> Seq<char>
    decreases missing.len(),
{
    if missing.len() == 0 {
        Seq::<char>::empty()
    } else {
        report_lines(missing.drop_last(), os) + report_line(missing.last(), os)
    }
}

/// The whole report.
pub open spec fn report(missing: Seq<Prerequisite>, os: Os) -> Seq<char> {
    "provisioning the revng SDK needs"@ + report_lines(missing, os)
}

impl MissingPrerequisites {
    /// The prerequisites found missing, in the order they were checked.
    pub closed spec fn missing_spec(&self) -> Seq<Prerequisite> {
        self.missing@
    }

    /// The operating system the hints are for.
    pub closed spec fn os_spec(&self) -> Os {
        self.os
    }

    /// A report of `missing` on `os`.
    pub fn new(missing: Vec<Prerequisite>, os: Os) -> (r: MissingPrerequisites)
        ensures
            r.missing_spec() == missing@,
            r.os_spec() == os,
    {
        MissingPrerequisites { missing, os }
    }

    /// The prerequisites found missing.
    pub fn missing(&self) -> (r: &Vec<Prerequisite>)
        ensures
            r@ == self.missing_spec(),
    {
        &self.missing
    }

    /// The report, one missing prerequisite per line, each with its install
    /// hint for the operating system when one is known.
    pub fn message(&self) -> (r: String)
        ensures
            r@ == report(self.missing_spec(), self.os_spec()),
    {
        let mut s = String::from_str("provisioning the revng SDK needs");
        let n = self.missing.len();
        for i in 0..n
            invariant
                n == self.missing@.len(),
                s@ == "provisioning the revng SDK needs"@ + report_lines(
                    self.missing@.take(i as int),
                    self.os,
                ),
        {
            let p = self.missing[i];
            let ghost before = s@;
            s.append("\n  ");
            s.append(p.name);
            match p.hint(self.os) {
                Some(h) => {
                    let part = concat3(" (", h, ")");
                    s.append(part.as_str());
                },
                None => {},
            }
            proof {
                let t = self.missing@.take(i + 1);
                assert(t.drop_last() =~= self.missing@.take(i as int));
                assert(t.last() == p);
                assert(s@ =~= before + report_line(p, self.os));
            }
        }
        assert(self.missing@.take(n as int) =~= self.missing@);
        s
    }
}

// ---------------------------------------------------------------------------
// Sources
// ---------------------------------------------------------------------------

/// A GitHub repository pinned at a commit.
#[derive(Clone, Copy, Debug)]
pub struct Source {
    pub repository: &'static str,
    pub commit: &'static str,
}

/// The pinned revng sources.
pub open spec fn revng_spec() -> Source {
    Source { repository: "xorpse/revng", commit: "5ac52139ab2e70c90fd127ce265471bba41bb84c" }
}

/// The pinned LLVM sources.
pub open spec fn llvm_spec() -> Source {
    Source {
        repository: "revng/llvm-project",
        commit: "b93d654bc9267ca2128528583558db618ff9cc1d",
    }
}

/// The tarball of a source.
pub open spec fn source_url(s: Source) -> Seq<char> {
    "https://codeload.github.com/"@ + s.repository@ + "/tar.gz/"@ + s.commit@
}

/// The directory the tarball unpacks to: the repository's name, a hyphen,
/// and the commit.
pub open spec fn source_directory(s: Source) -> Seq<char> {
    after_last_char(s.repository@, '/') + "-"@ + s.commit@
}

/// The pinned revng sources.
pub fn revng_source() -> (r: Source)
    ensures
        r == revng_spec(),
{
    Source { repository: "xorpse/revng", commit: "5ac52139ab2e70c90fd127ce265471bba41bb84c" }
}

/// The pinned LLVM sources.
pub fn llvm_source() -> (r: Source)
    ensures
        r == llvm_spec(),
{
    Source { repository: "revng/llvm-project", commit: "b93d654bc9267ca2128528583558db618ff9cc1d" }
}

impl Source {
    /// The URL of the source's tarball.
    pub fn url(&self) -> (r: String)
        ensures
            r@ == source_url(*self),
    {
        let a = concat3("https://codeload.github.com/", self.repository, "/tar.gz/");
        concat(a.as_str(), self.commit)
    }

    /// The directory the source's tarball unpacks to.
    pub fn directory(&self) -> (r: String)
        ensures
            r@ == source_directory(*self),
    {
        let name = string_of(&take_after_last_char(&chars_of(self.repository), '/'));
        concat3(name.as_str(), "-", self.commit)
    }
}

// ---------------------------------------------------------------------------
// The cache
// ---------------------------------------------------------------------------

/// What `Path::with_extension` gives for a path and an extension.
pub uninterp spec fn path_with_extension(path: Seq<char>, extension: Seq<char>) -> Seq<char>;

/// Calls `Path::with_extension`: the path with its file name's extension
/// replaced or added. It panics on an extension that holds a path
/// separator, which `requires` leaves out. The contract ties the result to
/// `path_with_extension` of the arguments and says nothing more of it.
#[verifier::external_body]
fn with_extension(path: &str, extension: &str) -> (r: String)
    requires
        !extension@.contains('/'),
    ensures
        r@ == path_with_extension(path@, extension@),
{
    std::path::Path::new(path).with_extension(extension).to_string_lossy().into_owned()
}

/// The cache directory of one target and one pair of pinned sources.
pub struct Cache {
    key: String,
}

/// The first twelve characters of a commit.
pub open spec fn short_commit(s: Source) -> Seq<char> {
    s.commit@.take(12)
}

/// The cache key directory: under the root, the target, then the revng
/// commit (or `local` when building local revng sources) and the LLVM
/// commit, each shortened.
pub open spec fn cache_key(root: Seq<char>, target: Seq<char>, local: bool) -> Seq<char> {
    let revng = if local {
        "local"@
    } else {
        short_commit(revng_spec())
    };
    path_join(path_join(root, target), revng + "-"@ + short_commit(llvm_spec()))
}

/// A build from local revng sources never shares a cache key with a build
/// from the pinned sources: for the same root and target the two keys
/// differ.
pub proof fn local_and_pinned_keys_differ(root: Seq<char>, target: Seq<char>)
    ensures
        cache_key(root, target, true) != cache_key(root, target, false),
{
    reveal_strlit("local");
    reveal_strlit("5ac52139ab2e70c90fd127ce265471bba41bb84c");
    reveal_strlit("-");
    let base = path_join(root, target);
    let local = "local"@ + "-"@ + short_commit(llvm_spec());
    let pinned = short_commit(revng_spec()) + "-"@ + short_commit(llvm_spec());
    assert(local[0] == 'l');
    assert(pinned[0] == '5');
    let k = if base.len() == 0 || base.last() == '/' {
        base.len() as int
    } else {
        (base.len() + 1) as int
    };
    assert(path_join(base, local)[k] == 'l');
    assert(path_join(base, pinned)[k] == '5');
}

/// Where caches go when `REVNG_BUILD_CACHE` names no root: under the user's
/// cache directory (`XDG_CACHE_HOME`, else `~/.cache`, on Linux;
/// `~/Library/Caches` on macOS); nowhere without `HOME`.
pub open spec fn default_cache_root(os: Os, home: Option<Seq<char>>, xdg_cache: Option<Seq<char>>) -> Option<
    Seq<char>,
> {
    match home {
        None => None,
        Some(h) => {
            let base = match os {
                Os::Linux => match xdg_cache {
                    Some(c) => c,
                    None => path_join(h, ".cache"@),
                },
                Os::MacOs => path_join(h, "Library/Caches"@),
            };
            Some(path_join(base, "revng-build"@))
        },
    }
}

/// The first twelve characters of a commit.
fn short(s: Source) -> (r: String)
    requires
        s.commit@.len() >= 12,
    ensures
        r@ == short_commit(s),
{
    let c = chars_of(s.commit);
    let t = slice_of(&c, 0, 12);
    assert(t@ =~= short_commit(s));
    string_of(&t)
}

/// Where caches go when `REVNG_BUILD_CACHE` names no root.
pub fn default_root(os: Os, home: Option<String>, xdg_cache: Option<String>) -> (r: Option<String>)
    ensures
        opt_view(r) == default_cache_root(os, opt_view(home), opt_view(xdg_cache)),
{
    let home = match home {
        Some(h) => h,
        None => {
            return None;
        },
    };
    let base = match os {
        Os::Linux => match xdg_cache {
            Some(c) => c,
            None => join(home.as_str(), ".cache"),
        },
        Os::MacOs => join(home.as_str(), "Library/Caches"),
    };
    Some(join(base.as_str(), "revng-build"))
}

/// The cache key directory for `target` under `root`.
pub fn key_path(root: &str, target: &str, local: bool) -> (r: String)
    ensures
        r@ == cache_key(root@, target@, local),
{
    proof {
        reveal_strlit("5ac52139ab2e70c90fd127ce265471bba41bb84c");
        reveal_strlit("b93d654bc9267ca2128528583558db618ff9cc1d");
    }
    let revng = if local {
        String::from_str("local")
    } else {
        short(revng_source())
    };
    let name = concat3(revng.as_str(), "-", short(llvm_source()).as_str());
    join(join(root, target).as_str(), name.as_str())
}

impl Cache {
    /// The cache whose key directory is `key`.
    pub fn at(key: String) -> (r: Cache)
        ensures
            r.key_spec() == key@,
    {
        Cache { key }
    }

    /// The key directory.
    pub closed spec fn key_spec(&self) -> Seq<char> {
        self.key@
    }

    /// The cache for a target: under `REVNG_BUILD_CACHE`'s value when set,
    /// else under the default root, else `NoCacheRoot`.
    pub fn resolve(
        cache_root: Option<String>,
        home: Option<String>,
        xdg_cache: Option<String>,
        os: Os,
        target: &str,
        local: bool,
    ) -> (r: Result<Cache, Error>)
        ensures
            ({
                let root = match opt_view(cache_root) {
                    Some(c) => Some(c),
                    None => default_cache_root(os, opt_view(home), opt_view(xdg_cache)),
                };
                match r {
                    Ok(c) => root matches Some(rt) && c.key_spec() == cache_key(rt, target@, local),
                    Err(e) => root is None && e is NoCacheRoot,
                }
            }),
    {
        let root = match cache_root {
            Some(c) => c,
            None => match default_root(os, home, xdg_cache) {
                Some(r) => r,
                None => {
                    return Err(Error::NoCacheRoot);
                },
            },
        };
        Ok(Cache { key: key_path(root.as_str(), target, local) })
    }

    /// The key directory.
    pub fn key(&self) -> (r: &str)
        ensures
            r@ == self.key_spec(),
    {
        self.key.as_str()
    }

    /// Where LLVM is installed.
    pub fn llvm(&self) -> (r: String)
        ensures
            r@ == path_join(self.key_spec(), "llvm"@),
    {
        join(self.key.as_str(), "llvm")
    }

    /// Where the revng SDK is installed.
    pub fn sdk(&self) -> (r: String)
        ensures
            r@ == path_join(self.key_spec(), "sdk"@),
    {
        join(self.key.as_str(), "sdk")
    }

    /// Where sources are unpacked and built.
    pub fn scratch(&self) -> (r: String)
        ensures
            r@ == path_join(self.key_spec(), "scratch"@),
    {
        join(self.key.as_str(), "scratch")
    }

    /// The log of the build steps.
    pub fn log(&self) -> (r: String)
        ensures
            r@ == path_join(self.key_spec(), "build.log"@),
    {
        join(self.key.as_str(), "build.log")
    }

    /// The file whose presence marks a finished provisioning.
    pub fn marker(&self) -> (r: String)
        ensures
            r@ == path_join(self.key_spec(), "provisioned"@),
    {
        join(self.key.as_str(), "provisioned")
    }

    /// The lock file that serialises provisioning: the key with a `lock`
    /// extension.
    pub fn lock(&self) -> (r: String)
        ensures
            r@ == path_with_extension(self.key_spec(), "lock"@),
    {
        proof {
            reveal_strlit("lock");
        }
        with_extension(self.key.as_str(), "lock")
    }

    /// The `llvm-config` of the cached LLVM.
    pub fn llvm_config(&self) -> (r: String)
        ensures
            r@ == path_join(path_join(self.key_spec(), "llvm"@), "bin/llvm-config"@),
    {
        join(self.llvm().as_str(), "bin/llvm-config")
    }

    /// Whether the cache holds a finished provisioning (`existing` holds
    /// which of the marker, `llvm-config` and the SDK's `lib` exist): not
    /// without the marker; with it, both others must exist, or the cache is
    /// corrupt.
    pub fn complete(&self, existing: &PathSet) -> (r: Result<bool, Error>)
        ensures
            ({
                let marked = existing@.contains(path_join(self.key_spec(), "provisioned"@));
                let whole = existing@.contains(
                    path_join(path_join(self.key_spec(), "llvm"@), "bin/llvm-config"@),
                ) && existing@.contains(path_join(path_join(self.key_spec(), "sdk"@), "lib"@));
                match r {
                    Ok(b) => b == marked && (marked ==> whole),
                    Err(e) => marked && !whole && (e matches Error::CorruptCache(k) && k@
                        == self.key_spec()),
                }
            }),
    {
        if !existing.contains(&self.marker()) {
            return Ok(false);
        }
        if existing.contains(&self.llvm_config()) && existing.contains(
            &join(self.sdk().as_str(), "lib"),
        ) {
            Ok(true)
        } else {
            Err(Error::CorruptCache(self.key.clone()))
        }
    }

    /// The sources to fetch: LLVM's, after revng's unless revng's are local.
    pub fn origins(skip_revng: bool) -> (r: Vec<Source>)
        ensures
            r@ == (if skip_revng {
                seq![llvm_spec()]
            } else {
                seq![revng_spec(), llvm_spec()]
            }),
    {
        if skip_revng {
            vec![llvm_source()]
        } else {
            vec![revng_source(), llvm_source()]
        }
    }
}

impl Cache {
    /// Whether a provisioned cache is used as it is: when revng's sources
    /// are not local and the cache is complete.
    pub fn reusable(local: bool, complete: bool) -> (r: bool)
        ensures
            r == (!local && complete),
    {
        !local && complete
    }

    /// The directories cleared before provisioning starts afresh: LLVM's, the
    /// SDK's and the scratch directory, unless revng's sources are local.
    pub fn stale_directories(&self, local: bool) -> (r: Vec<String>)
        ensures
            views(r@) == (if local {
                Seq::<Seq<char>>::empty()
            } else {
                seq![
                    path_join(self.key_spec(), "llvm"@),
                    path_join(self.key_spec(), "sdk"@),
                    path_join(self.key_spec(), "scratch"@),
                ]
            }),
    {
        let mut r: Vec<String> = Vec::new();
        if !local {
            r.push(self.llvm());
            r.push(self.sdk());
            r.push(self.scratch());
        }
        assert(views(r@) =~= (if local {
            Seq::<Seq<char>>::empty()
        } else {
            seq![
                path_join(self.key_spec(), "llvm"@),
                path_join(self.key_spec(), "sdk"@),
                path_join(self.key_spec(), "scratch"@),
            ]
        }));
        r
    }

    /// A search path for the build steps: `first`, then the entries of the
    /// inherited value, joined with `:` (`env::join_paths`).
    fn search_path(first: String, inherited: Option<String>) -> (r: String)
        requires
            !has_infix(first@, ":"@),
        ensures
            r@ == match inherited {
                Some(e) => join_with(seq![first@] + split_on(e@, ':'), ":"@),
                None => first@,
            },
    {
        match inherited {
            Some(e) => {
                let ghost pieces = split_on(e@, ':');
                let s = concat3(first.as_str(), ":", e.as_str());
                proof {
                    lemma_join_split(e@);
                    lemma_join_cons(first@, pieces);
                }
                s
            },
            None => first,
        }
    }

    /// The `PATH` of the build steps: the Python environment's `bin` first,
    /// then the inherited `PATH`.
    pub fn tool_search_path(&self, inherited: Option<String>) -> (r: String)
        requires
            !has_infix(path_join(path_join(self.key_spec(), "scratch"@), "venv/bin"@), ":"@),
        ensures
            r@ == match inherited {
                Some(e) => join_with(
                    seq![path_join(path_join(self.key_spec(), "scratch"@), "venv/bin"@)] + split_on(
                        e@,
                        ':',
                    ),
                    ":"@,
                ),
                None => path_join(path_join(self.key_spec(), "scratch"@), "venv/bin"@),
            },
    {
        Self::search_path(join(self.scratch().as_str(), "venv/bin"), inherited)
    }

    /// The `LD_LIBRARY_PATH` of the build steps: the cached LLVM's libraries
    /// first, then the inherited value.
    pub fn library_search_path(&self, inherited: Option<String>) -> (r: String)
        requires
            !has_infix(path_join(path_join(self.key_spec(), "llvm"@), "lib"@), ":"@),
        ensures
            r@ == match inherited {
                Some(e) => join_with(
                    seq![path_join(path_join(self.key_spec(), "llvm"@), "lib"@)] + split_on(e@, ':'),
                    ":"@,
                ),
                None => path_join(path_join(self.key_spec(), "llvm"@), "lib"@),
            },
    {
        Self::search_path(join(self.llvm().as_str(), "lib"), inherited)
    }
}

/// How a cache is provisioned, decided before any of it is done.
pub struct Provisioning {
    /// Whether a complete cache is used as it is, checked before the lock is
    /// taken and again once it is held: only when revng's sources are not
    /// local.
    pub reuse_complete: bool,
    /// The directory that holds the key directory and its lock.
    pub lock_directory: Option<String>,
    /// The lock file.
    pub lock: String,
    /// The directories removed once the lock is held.
    pub remove: Vec<String>,
    /// The scratch directory, created before the sources are fetched.
    pub scratch: String,
    /// The sources fetched into the scratch directory.
    pub sources: Vec<Source>,
    /// Whether the scratch directory is removed after the build steps.
    pub remove_scratch: bool,
    /// The marker written last.
    pub marker: String,
    /// What the marker holds: the pinned revng commit.
    pub marker_contents: &'static str,
}

impl Cache {
    /// The plan for provisioning this cache (`local` when revng's sources
    /// are local): reuse a complete cache only for pinned sources; otherwise
    /// clear what a pinned build left, fetch the sources (LLVM's only, for
    /// local revng sources), build, drop the scratch directory of a pinned
    /// build, and write the marker.
    pub fn provisioning(&self, local: bool) -> (r: Provisioning)
        ensures
            r.reuse_complete == !local,
            opt_view(r.lock_directory) == path_parent(self.key_spec()),
            r.lock@ == path_with_extension(self.key_spec(), "lock"@),
            views(r.remove@) == (if local {
                Seq::<Seq<char>>::empty()
            } else {
                seq![
                    path_join(self.key_spec(), "llvm"@),
                    path_join(self.key_spec(), "sdk"@),
                    path_join(self.key_spec(), "scratch"@),
                ]
            }),
            r.scratch@ == path_join(self.key_spec(), "scratch"@),
            r.sources@ == (if local {
                seq![llvm_spec()]
            } else {
                seq![revng_spec(), llvm_spec()]
            }),
            r.remove_scratch == !local,
            r.marker@ == path_join(self.key_spec(), "provisioned"@),
            r.marker_contents@ == revng_spec().commit@,
    {
        Provisioning {
            reuse_complete: Self::reusable(local, true),
            lock_directory: parent(self.key.as_str()),
            lock: self.lock(),
            remove: self.stale_directories(local),
            scratch: self.scratch(),
            sources: Self::origins(local),
            remove_scratch: !local,
            marker: self.marker(),
            marker_contents: revng_source().commit,
        }
    }
}

} // verus!
