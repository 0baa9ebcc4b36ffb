//! The decisions of SDK discovery: which target, which install, whether it is
//! complete, and what `llvm-config` reported. The probing itself (environment,
//! file system, processes) is the caller's.
use vstd::prelude::*;
use vstd::string::StringExecFns;

use crate::error::Error;
use crate::os::{Os, library_name};
use crate::paths::{PathSet, is_absolute, is_absolute_exec, join, path_join};
use crate::text::{
    before_char, chars_of, lines, lines_exec, parse_u32, parse_u32_exec, split_exec, split_on,
    opt_view, str_eq, string_of, take_before_char, trim, trim_exec, views,
};

verus! {

/// The LLVM major version revng is built against.
pub const LLVM_MAJOR: u32 = 16;

// ---------------------------------------------------------------------------
// Target
// ---------------------------------------------------------------------------

/// The supported targets: Linux on any architecture, macOS on aarch64.
pub open spec fn target_os(os: Seq<char>, arch: Seq<char>) -> Option<Os> {
    if os == "linux"@ {
        Some(Os::Linux)
    } else if os == "macos"@ && arch == "aarch64"@ {
        Some(Os::MacOs)
    } else {
        None
    }
}

impl Os {
    /// The operating system of a Cargo target (`CARGO_CFG_TARGET_OS` and
    /// `CARGO_CFG_TARGET_ARCH`), or `UnsupportedTarget`.
    pub fn for_target(os: String, arch: String) -> (r: Result<Os, Error>)
        ensures
            match r {
                Ok(o) => target_os(os@, arch@) == Some(o),
                Err(e) => target_os(os@, arch@) is None && (e matches Error::UnsupportedTarget {
                    arch: a,
                    os: o,
                } && a@ == arch@ && o@ == os@),
            },
    {
        if str_eq(os.as_str(), "linux") {
            Ok(Os::Linux)
        } else if str_eq(os.as_str(), "macos") && str_eq(arch.as_str(), "aarch64") {
            Ok(Os::MacOs)
        } else {
            Err(Error::UnsupportedTarget { arch, os })
        }
    }
}

// ---------------------------------------------------------------------------
// Where the SDK is
// ---------------------------------------------------------------------------

/// The first of two settings that is set.
pub open spec fn either(first: Option<Seq<char>>, second: Option<Seq<char>>) -> Option<Seq<char>> {
    match first {
        Some(v) => Some(v),
        None => second,
    }
}

/// The SDK and LLVM install prefixes named by the environment, or `None` when
/// neither is named and the SDK is provisioned into the cache. The values of
/// `DEP_REVNG_SDK` and `DEP_REVNG_LLVM` (set for dependents by the revng-sys
/// build) take precedence over `REVNG_SDK` and `REVNG_LLVM`; setting only one
/// of the two is an error.
pub fn select_install(
    dep_sdk: Option<String>,
    sdk: Option<String>,
    dep_llvm: Option<String>,
    llvm: Option<String>,
) -> (r: Result<Option<(String, String)>, Error>)
    ensures
        ({
            let s = either(opt_view(dep_sdk), opt_view(sdk));
            let l = either(opt_view(dep_llvm), opt_view(llvm));
            match r {
                Ok(Some((p, q))) => s == Some(p@) && l == Some(q@),
                Ok(None) => s is None && l is None,
                Err(e) => (s is Some && l is None && e is NoLlvm) || (s is None && l is Some
                    && e is NoSdk),
            }
        }),
{
    let sdk_variable = match dep_sdk {
        Some(v) => Some(v),
        None => sdk,
    };
    let llvm_variable = match dep_llvm {
        Some(v) => Some(v),
        None => llvm,
    };
    match (sdk_variable, llvm_variable) {
        (Some(prefix), Some(llvm)) => Ok(Some((prefix, llvm))),
        (Some(_), None) => Err(Error::NoLlvm),
        (None, Some(_)) => Err(Error::NoSdk),
        (None, None) => Ok(None),
    }
}

/// The paths an SDK install must have.
pub open spec fn required_paths(prefix: Seq<char>, llvm: Seq<char>, os: Os, compiler: Seq<char>) -> Seq<
    Seq<char>,
> {
    seq![
        path_join(prefix, "include/revng"@),
        path_join(prefix, "lib/revng/analyses"@),
        path_join(path_join(prefix, "lib"@), library_name(os, "revngPipelineC"@)),
        path_join(llvm, "bin/llvm-config"@),
        compiler,
    ]
}

/// The first of `paths` that is not in `existing`.
pub open spec fn first_missing(paths: Seq<Seq<char>>, existing: Set<Seq<char>>) -> Option<Seq<char>>
    decreases paths.len(),
{
    if paths.len() == 0 {
        None
    } else if !existing.contains(paths[0]) {
        Some(paths[0])
    } else {
        first_missing(paths.drop_first(), existing)
    }
}

/// The first of `paths` that is not in `existing`, if any.
pub fn find_missing(paths: &Vec<String>, existing: &PathSet) -> (r: Option<String>)
    ensures
        match r {
            Some(p) => first_missing(views(paths@), existing@) == Some(p@),
            None => first_missing(views(paths@), existing@) is None,
        },
{
    let n = paths.len();
    let ghost all = views(paths@);
    assert(all.skip(0) =~= all);
    for i in 0..n
        invariant
            n == paths.len(),
            all == views(paths@),
            first_missing(all, existing@) == first_missing(all.skip(i as int), existing@),
    {
        assert(all.skip(i as int)[0] == paths@[i as int]@);
        assert(all.skip(i as int).drop_first() =~= all.skip(i + 1));
        if !existing.contains(&paths[i]) {
            return Some(paths[i].clone());
        }
    }
    assert(all.skip(n as int) =~= Seq::<Seq<char>>::empty());
    None
}

/// The paths an SDK install must have: its headers, its analyses, its
/// pipeline library, LLVM's `llvm-config`, and the compiler.
pub fn required_paths_of(prefix: &str, llvm: &str, os: Os, compiler: &str) -> (r: Vec<String>)
    ensures
        views(r@) == required_paths(prefix@, llvm@, os, compiler@),
{
    let mut r: Vec<String> = Vec::new();
    r.push(join(prefix, "include/revng"));
    r.push(join(prefix, "lib/revng/analyses"));
    let lib = join(prefix, "lib");
    r.push(join(lib.as_str(), os.library("revngPipelineC").as_str()));
    r.push(join(llvm, "bin/llvm-config"));
    r.push(String::from_str(compiler));
    assert(views(r@) =~= required_paths(prefix@, llvm@, os, compiler@));
    r
}

/// Every path of `paths` is in `existing` when none is missing.
pub proof fn lemma_none_missing(paths: Seq<Seq<char>>, existing: Set<Seq<char>>)
    requires
        first_missing(paths, existing) is None,
    ensures
        forall|i: int| 0 <= i < paths.len() ==> existing.contains(#[trigger] paths[i]),
    decreases paths.len(),
{
    if paths.len() > 0 {
        lemma_none_missing(paths.drop_first(), existing);
        assert forall|i: int| 0 <= i < paths.len() implies existing.contains(#[trigger] paths[i]) by {
            if i > 0 {
                assert(paths[i] == paths.drop_first()[i - 1]);
            }
        }
    }
}

/// What a checked install holds: where the SDK and LLVM are, for which
/// operating system and compiler, and the paths found to exist when it was
/// checked.
pub struct CheckedInstallView {
    pub prefix: Seq<char>,
    pub llvm: Seq<char>,
    pub os: Os,
    pub compiler: Seq<char>,
    pub found: Set<Seq<char>>,
}

/// An SDK install that had every required path when it was checked.
pub struct CheckedInstall {
    prefix: String,
    llvm: String,
    os: Os,
    compiler: String,
    found: Ghost<Set<Seq<char>>>,
}

impl View for CheckedInstall {
    type V = CheckedInstallView;

    closed spec fn view(&self) -> CheckedInstallView {
        CheckedInstallView {
            prefix: self.prefix@,
            llvm: self.llvm@,
            os: self.os,
            compiler: self.compiler@,
            found: self.found@,
        }
    }
}

impl CheckedInstall {
    /// No required path of a checked install was missing.
    #[verifier::type_invariant]
    spec fn complete(self) -> bool {
        first_missing(required_paths(self.prefix@, self.llvm@, self.os, self.compiler@), self.found@) is None
    }

    /// The SDK's prefix, LLVM's prefix and the operating system, each of
    /// the required paths having been found.
    pub fn into_parts(self) -> (r: (String, String, Os))
        ensures
            r.0@ == self@.prefix,
            r.1@ == self@.llvm,
            r.2 == self@.os,
            first_missing(required_paths(r.0@, r.1@, r.2, self@.compiler), self@.found) is None,
    {
        proof {
            use_type_invariant(&self);
        }
        (self.prefix, self.llvm, self.os)
    }
}

/// Checks that an SDK install has every required path (`existing` holds
/// those of `required_paths_of` that exist); the first one missing is the
/// error. A complete install comes back checked.
pub fn check_install(prefix: &str, llvm: &str, os: Os, compiler: &str, existing: &PathSet) -> (r:
    Result<CheckedInstall, Error>)
    ensures
        match r {
            Ok(c) => first_missing(required_paths(prefix@, llvm@, os, compiler@), existing@) is None
                && c@ == (CheckedInstallView {
                prefix: prefix@,
                llvm: llvm@,
                os,
                compiler: compiler@,
                found: existing@,
            }),
            Err(e) => exists|p: Seq<char>|
                first_missing(required_paths(prefix@, llvm@, os, compiler@), existing@) == Some(p)
                    && (e matches Error::MissingPath(q) && q@ == p),
        },
{
    let paths = required_paths_of(prefix, llvm, os, compiler);
    match find_missing(&paths, existing) {
        Some(p) => {
            let ghost pv = p@;
            Err(Error::MissingPath(p))
        },
        None => Ok(
            CheckedInstall {
                prefix: String::from_str(prefix),
                llvm: String::from_str(llvm),
                os,
                compiler: String::from_str(compiler),
                found: Ghost(existing@),
            },
        ),
    }
}

// ---------------------------------------------------------------------------
// llvm-config
// ---------------------------------------------------------------------------

/// What `llvm-config --version --includedir --libdir` reports.
pub struct LlvmConfig {
    pub major: u32,
    pub includedir: String,
    pub libdir: String,
}

/// The major version in a version line: the text before the first `.`,
/// trimmed, as a number.
pub open spec fn version_major(version: Seq<char>) -> Option<u32> {
    parse_u32(trim(before_char(version, '.')))
}

/// Reads the output of `llvm-config --version --includedir --libdir`: three
/// lines, the first a version whose major number must be `LLVM_MAJOR`, the
/// others the header and library directories (trimmed).
pub fn parse_llvm_config(stdout: &str) -> (r: Result<LlvmConfig, Error>)
    ensures
        ({
            let ls = lines(stdout@);
            match r {
                Ok(c) => ls.len() >= 3 && version_major(ls[0]) == Some(LLVM_MAJOR) && c.major
                    == LLVM_MAJOR && c.includedir@ == trim(ls[1]) && c.libdir@ == trim(ls[2]),
                Err(Error::LlvmVersion { output }) => (ls.len() < 3 && output@ == stdout@) || (
                ls.len() >= 3 && version_major(ls[0]) is None && output@ == ls[0]),
                Err(Error::LlvmMajor { found }) => ls.len() >= 3 && version_major(ls[0]) == Some(
                    found,
                ) && found != LLVM_MAJOR,
                Err(_) => false,
            }
        }),
{
    let text = chars_of(stdout);
    let lines = lines_exec(&text);
    proof {
        assert(lines@.map_values(|l: Vec<char>| l@).len() == lines@.len());
    }
    if lines.len() < 3 {
        return Err(Error::LlvmVersion { output: String::from_str(stdout) });
    }
    let ghost ls = lines@.map_values(|l: Vec<char>| l@);
    assert(ls[0] == lines@[0]@ && ls[1] == lines@[1]@ && ls[2] == lines@[2]@);
    let head = take_before_char(&lines[0], '.');
    let major = match parse_u32_exec(&trim_exec(&head)) {
        Some(m) => m,
        None => {
            return Err(Error::LlvmVersion { output: string_of(&lines[0]) });
        },
    };
    if major != LLVM_MAJOR {
        return Err(Error::LlvmMajor { found: major });
    }
    Ok(LlvmConfig {
        major,
        includedir: string_of(&trim_exec(&lines[1])),
        libdir: string_of(&trim_exec(&lines[2])),
    })
}

/// What a run of `llvm-config --version --includedir --libdir` comes to:
/// when it failed, `LlvmVersion` with what it printed on its error stream;
/// otherwise what its output says (see `parse_llvm_config`).
pub fn read_llvm_config(succeeded: bool, stdout: &str, stderr: &str) -> (r: Result<LlvmConfig, Error>)
    ensures
        !succeeded ==> (r matches Err(Error::LlvmVersion { output }) && output@ == stderr@),
        succeeded ==> ({
            let ls = lines(stdout@);
            match r {
                Ok(c) => ls.len() >= 3 && version_major(ls[0]) == Some(LLVM_MAJOR) && c.major
                    == LLVM_MAJOR && c.includedir@ == trim(ls[1]) && c.libdir@ == trim(ls[2]),
                Err(Error::LlvmVersion { output }) => (ls.len() < 3 && output@ == stdout@) || (
                ls.len() >= 3 && version_major(ls[0]) is None && output@ == ls[0]),
                Err(Error::LlvmMajor { found }) => ls.len() >= 3 && version_major(ls[0]) == Some(
                    found,
                ) && found != LLVM_MAJOR,
                Err(_) => false,
            }
        }),
{
    if succeeded {
        parse_llvm_config(stdout)
    } else {
        Err(Error::LlvmVersion { output: String::from_str(stderr) })
    }
}

/// Whether LLVM is installed as component libraries: when `LLVMCore` exists
/// it is; otherwise the single `LLVM` library must exist.
pub fn llvm_is_componentised(llvm_lib: &str, os: Os, existing: &PathSet) -> (r: Result<bool, Error>)
    ensures
        ({
            let core = path_join(llvm_lib@, library_name(os, "LLVMCore"@));
            let whole = path_join(llvm_lib@, library_name(os, "LLVM"@));
            match r {
                Ok(b) => b == existing@.contains(core) && (b || existing@.contains(whole)),
                Err(e) => !existing@.contains(core) && !existing@.contains(whole) && (
                e matches Error::MissingPath(p) && p@ == whole),
            }
        }),
{
    let core = join(llvm_lib, os.library("LLVMCore").as_str());
    if existing.contains(&core) {
        return Ok(true);
    }
    let whole = join(llvm_lib, os.library("LLVM").as_str());
    if existing.contains(&whole) {
        Ok(false)
    } else {
        Err(Error::MissingPath(whole))
    }
}

// ---------------------------------------------------------------------------
// The compiler and its runtime
// ---------------------------------------------------------------------------

/// The C++ runtime libraries that a Linux consumer links.
pub open spec fn runtime_library_names() -> Seq<Seq<char>> {
    seq!["libc++.so"@, "libc++abi.so"@]
}

/// The C++ runtime libraries that a Linux consumer links.
pub fn runtime_libraries() -> (r: Vec<&'static str>)
    ensures
        r@.map_values(|s: &str| s@) == runtime_library_names(),
{
    let r = vec!["libc++.so", "libc++abi.so"];
    assert(r@.map_values(|s: &str| s@) =~= runtime_library_names());
    r
}

/// The path a `-print-file-name=` query printed: its output, trimmed.
pub fn printed_path(output: &str) -> (r: String)
    ensures
        r@ == trim(output@),
{
    string_of(&trim_exec(&chars_of(output)))
}

/// Where the compiler's runtime library `name` is, from what
/// `{compiler} -print-file-name={name}` printed: the trimmed output, which
/// must be an absolute path that exists; otherwise `MissingRuntime`.
pub fn runtime_library(compiler: &str, name: &str, output: &str, existing: &PathSet) -> (r: Result<
    String,
    Error,
>)
    ensures
        match r {
            Ok(p) => p@ == trim(output@) && is_absolute(p@) && existing@.contains(p@),
            Err(e) => !(is_absolute(trim(output@)) && existing@.contains(trim(output@))) && (
            e matches Error::MissingRuntime { compiler: c, name: n } && c@ == compiler@ && n@
                == name@),
        },
{
    let path = printed_path(output);
    if is_absolute_exec(path.as_str()) && existing.contains(&path) {
        Ok(path)
    } else {
        Err(Error::MissingRuntime { compiler: String::from_str(compiler), name: String::from_str(name) })
    }
}

/// The candidates for `tool` on a search path (`PATH`'s value): each entry
/// of the path, split at `':'`, joined with the tool's name.
pub open spec fn search_candidates(path_var: Seq<char>, tool: Seq<char>) -> Seq<Seq<char>> {
    split_on(path_var, ':').map_values(|dir: Seq<char>| path_join(dir, tool))
}

/// The candidates for `tool` on the search path `path_var`, in order.
pub fn candidates(path_var: &str, tool: &str) -> (r: Vec<String>)
    ensures
        views(r@) == search_candidates(path_var@, tool@),
{
    let pieces = split_exec(&chars_of(path_var), ':');
    let ghost dirs = pieces@.map_values(|l: Vec<char>| l@);
    let mut r: Vec<String> = Vec::new();
    let n = pieces.len();
    for i in 0..n
        invariant
            n == pieces.len(),
            dirs == pieces@.map_values(|l: Vec<char>| l@),
            dirs == split_on(path_var@, ':'),
            views(r@) == dirs.take(i as int).map_values(|dir: Seq<char>| path_join(dir, tool@)),
    {
        let dir = string_of(&pieces[i]);
        let path = join(dir.as_str(), tool);
        let ghost before = views(r@);
        r.push(path);
        assert(dirs[i as int] == pieces@[i as int]@);
        assert(views(r@) =~= before.push(path@));
        assert(dirs.take(i + 1) =~= dirs.take(i as int).push(dirs[i as int]));
        assert(views(r@) =~= dirs.take(i + 1).map_values(|dir: Seq<char>| path_join(dir, tool@)));
    }
    assert(dirs.take(n as int) =~= dirs);
    r
}

/// The first of `paths` in `present`.
pub open spec fn first_present(paths: Seq<Seq<char>>, present: Set<Seq<char>>) -> Option<Seq<char>>
    decreases paths.len(),
{
    if paths.len() == 0 {
        None
    } else if present.contains(paths[0]) {
        Some(paths[0])
    } else {
        first_present(paths.drop_first(), present)
    }
}

/// The first of `paths` in `present`, if any.
pub fn find_present(paths: &Vec<String>, present: &PathSet) -> (r: Option<String>)
    ensures
        match r {
            Some(p) => first_present(views(paths@), present@) == Some(p@),
            None => first_present(views(paths@), present@) is None,
        },
{
    let n = paths.len();
    let ghost all = views(paths@);
    assert(all.skip(0) =~= all);
    for i in 0..n
        invariant
            n == paths.len(),
            all == views(paths@),
            first_present(all, present@) == first_present(all.skip(i as int), present@),
    {
        assert(all.skip(i as int)[0] == paths@[i as int]@);
        assert(all.skip(i as int).drop_first() =~= all.skip(i + 1));
        if present.contains(&paths[i]) {
            return Some(paths[i].clone());
        }
    }
    assert(all.skip(n as int) =~= Seq::<Seq<char>>::empty());
    None
}

/// Where `tool` is on the search path `path_var`: the first candidate that
/// is a file (`files` holds the candidates that are).
pub fn lookup(path_var: &str, tool: &str, files: &PathSet) -> (r: Option<String>)
    ensures
        match r {
            Some(p) => first_present(search_candidates(path_var@, tool@), files@) == Some(p@),
            None => first_present(search_candidates(path_var@, tool@), files@) is None,
        },
{
    find_present(&candidates(path_var, tool), files)
}

/// The C++ compiler for a target: on Linux the `clang++` found on the search
/// path (`located`), or plain `clang++` when there is none; on macOS Apple's.
pub open spec fn compiler_path(os: Os, located: Option<Seq<char>>) -> Seq<char> {
    match os {
        Os::Linux => match located {
            Some(p) => p,
            None => "clang++"@,
        },
        Os::MacOs => "/usr/bin/clang++"@,
    }
}

/// The C++ compiler for a target (see `compiler_path`).
pub fn compiler_for(os: Os, located: Option<String>) -> (r: String)
    ensures
        r@ == compiler_path(os, opt_view(located)),
{
    match os {
        Os::Linux => match located {
            Some(p) => p,
            None => String::from_str("clang++"),
        },
        Os::MacOs => String::from_str("/usr/bin/clang++"),
    }
}

/// Whether `REVNG_BUILD_PORTABLE` asks for a portable build: it is set and
/// not empty.
pub fn portable_requested(value: Option<String>) -> (r: bool)
    ensures
        r == (value matches Some(v) && v@.len() > 0),
{
    match value {
        Some(v) => chars_of(v.as_str()).len() > 0,
        None => false,
    }
}

/// The environment variables whose change re-runs discovery: the SDK's own,
/// then each dependency's include and root variables.
pub open spec fn rerun_variables() -> Seq<Seq<char>> {
    seq![
        "REVNG_SDK"@,
        "REVNG_LLVM"@,
        "REVNG_BUILD_CACHE"@,
        "REVNG_BUILD_PORTABLE"@,
        "BOOST_INCLUDEDIR"@,
        "BOOST_ROOT"@,
        "LIBARCHIVE_INCLUDEDIR"@,
        "LIBARCHIVE_ROOT"@,
    ]
}

/// The Cargo directives that re-run discovery when a variable it reads
/// changes.
pub fn rerun_directives() -> (r: Vec<String>)
    ensures
        views(r@) == rerun_variables().map_values(
            |v: Seq<char>| "cargo::rerun-if-env-changed="@ + v,
        ),
{
    let mut names: Vec<&'static str> = vec!["REVNG_SDK", "REVNG_LLVM", "REVNG_BUILD_CACHE", "REVNG_BUILD_PORTABLE"];
    let deps = crate::dependency::dependencies();
    names.push(deps[0].includedir);
    names.push(deps[0].root);
    names.push(deps[1].includedir);
    names.push(deps[1].root);
    let ghost all = names@.map_values(|s: &str| s@);
    assert(all =~= rerun_variables());
    let mut r: Vec<String> = Vec::new();
    let n = names.len();
    for i in 0..n
        invariant
            n == names.len(),
            all == names@.map_values(|s: &str| s@),
            views(r@) == all.take(i as int).map_values(|v: Seq<char>| "cargo::rerun-if-env-changed="@ + v),
    {
        let ghost before = views(r@);
        let d = crate::text::concat("cargo::rerun-if-env-changed=", names[i]);
        r.push(d);
        assert(views(r@) =~= before.push(d@));
        assert(all.take(i + 1) =~= all.take(i as int).push(all[i as int]));
        assert(views(r@) =~= all.take(i + 1).map_values(|v: Seq<char>| "cargo::rerun-if-env-changed="@ + v));
    }
    assert(all.take(n as int) =~= all);
    r
}

} // verus!
