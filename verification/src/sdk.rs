//! A discovered revng SDK, and the linker directives that link a crate
//! against it.
use vstd::prelude::*;
use vstd::string::StringExecFns;

use crate::discovery::{
    CheckedInstall, LLVM_MAJOR, compiler_for, compiler_path, lemma_none_missing, required_paths,
};
use crate::os::{Os, extension_of, library_name, origin_of};
use crate::paths::{PathSet, is_absolute, join, parent, path_join, path_parent, paths_equal, same_path};
use crate::text::{
    chars_of, clone_strings, concat, ends_with, has_prefix, has_suffix, lex_order, sort_strings,
    opt_view, starts_with, str_views, views,
};

verus! {

// ---------------------------------------------------------------------------
// The libraries that are linked
// ---------------------------------------------------------------------------

/// The revng libraries every consumer links.
pub open spec fn base_libraries() -> Seq<Seq<char>> {
    seq!["revngPipelineC"@, "revngSupport"@, "revngModel"@]
}

/// The LLVM component libraries, linked when LLVM is built as components.
pub open spec fn llvm_components() -> Seq<Seq<char>> {
    seq![
        "LLVMCore"@,
        "LLVMSupport"@,
        "LLVMTarget"@,
        "LLVMExecutionEngine"@,
        "LLVMAnalysis"@,
        "LLVMTransformUtils"@,
        "LLVMScalarOpts"@,
        "LLVMInstCombine"@,
        "LLVMPasses"@,
    ]
}

/// The MLIR C API libraries, each linked when the LLVM install has it.
pub open spec fn mlir_libraries() -> Seq<Seq<char>> {
    seq!["MLIRCAPIIR"@, "MLIRCAPITransforms"@, "MLIRCAPIRegisterEverything"@]
}

/// The libraries whose static registries must be kept by the linker, in the
/// order they are linked.
pub open spec fn retained_stems() -> Seq<Seq<char>> {
    seq!["revngLiftReference"@, "revngFunctionCallIdentification"@, "revngValueMaterializer"@]
}

fn base_library_list() -> (r: Vec<&'static str>)
    ensures
        str_views(r@) == base_libraries(),
{
    let r = vec!["revngPipelineC", "revngSupport", "revngModel"];
    assert(str_views(r@) =~= base_libraries());
    r
}

fn llvm_component_list() -> (r: Vec<&'static str>)
    ensures
        str_views(r@) == llvm_components(),
{
    let r = vec![
        "LLVMCore",
        "LLVMSupport",
        "LLVMTarget",
        "LLVMExecutionEngine",
        "LLVMAnalysis",
        "LLVMTransformUtils",
        "LLVMScalarOpts",
        "LLVMInstCombine",
        "LLVMPasses",
    ];
    assert(str_views(r@) =~= llvm_components());
    r
}

fn mlir_library_list() -> (r: Vec<&'static str>)
    ensures
        str_views(r@) == mlir_libraries(),
{
    let r = vec!["MLIRCAPIIR", "MLIRCAPITransforms", "MLIRCAPIRegisterEverything"];
    assert(str_views(r@) =~= mlir_libraries());
    r
}

fn retained_stem_list() -> (r: Vec<&'static str>)
    ensures
        str_views(r@) == retained_stems(),
{
    let r = vec!["revngLiftReference", "revngFunctionCallIdentification", "revngValueMaterializer"];
    assert(str_views(r@) =~= retained_stems());
    r
}

/// The stems among `stems` whose library exists in `dir`.
pub open spec fn present_stems(dir: Seq<char>, stems: Seq<Seq<char>>, os: Os, existing: Set<
    Seq<char>,
>) -> Seq<Seq<char>>
    decreases stems.len(),
{
    if stems.len() == 0 {
        seq![]
    } else {
        let rest = present_stems(dir, stems.drop_last(), os, existing);
        if existing.contains(path_join(dir, library_name(os, stems.last()))) {
            rest.push(stems.last())
        } else {
            rest
        }
    }
}

/// The paths of the libraries among `stems` that exist in `dir`.
pub open spec fn present_paths(dir: Seq<char>, stems: Seq<Seq<char>>, os: Os, existing: Set<
    Seq<char>,
>) -> Seq<Seq<char>> {
    present_stems(dir, stems, os, existing).map_values(
        |stem: Seq<char>| path_join(dir, library_name(os, stem)),
    )
}

/// The names among `names` of revng analysis libraries: `librevng*` with the
/// shared library extension.
pub open spec fn analysis_names(os: Os, names: Seq<Seq<char>>) -> Seq<Seq<char>>
    decreases names.len(),
{
    if names.len() == 0 {
        seq![]
    } else {
        let rest = analysis_names(os, names.drop_last());
        let name = names.last();
        if has_prefix(name, "librevng"@) && has_suffix(name, extension_of(os)) {
            rest.push(name)
        } else {
            rest
        }
    }
}

/// Each item of `items`, after `prefix`.
pub open spec fn prefixed(prefix: Seq<char>, items: Seq<Seq<char>>) -> Seq<Seq<char>> {
    items.map_values(|x: Seq<char>| prefix + x)
}

// ---------------------------------------------------------------------------
// The SDK
// ---------------------------------------------------------------------------

/// What a discovered SDK holds.
pub struct SdkView {
    pub prefix: Seq<char>,
    pub llvm: Seq<char>,
    pub llvm_include: Seq<char>,
    pub llvm_lib: Seq<char>,
    pub llvm_major: u32,
    pub component_llvm: bool,
    pub link_files: Seq<Seq<char>>,
    pub dependency_includes: Seq<Seq<char>>,
    pub portable: bool,
    pub os: Os,
    /// The paths found to exist when the install was checked.
    pub found: Set<Seq<char>>,
}

/// The parts from which an SDK is assembled once discovery has found them.
pub struct SdkParts {
    /// The install, checked: the SDK's and LLVM's prefixes and the target's
    /// operating system.
    pub install: CheckedInstall,
    /// LLVM's header directory, as `llvm-config --includedir` reports it.
    pub llvm_include: String,
    /// LLVM's library directory, as `llvm-config --libdir` reports it.
    pub llvm_lib: String,
    /// LLVM's major version.
    pub llvm_major: u32,
    /// Whether LLVM is installed as component libraries rather than one library.
    pub component_llvm: bool,
    /// Files handed to the linker as they are (the C++ runtime on Linux).
    pub link_files: Vec<String>,
    /// Header directories of the SDK's dependencies.
    pub dependency_includes: Vec<String>,
    /// Whether run paths are relative to the consumer binary.
    pub portable: bool,
}

/// A discovered revng SDK.
pub struct Sdk {
    prefix: String,
    llvm: String,
    llvm_include: String,
    llvm_lib: String,
    llvm_major: u32,
    component_llvm: bool,
    link_files: Vec<String>,
    dependency_includes: Vec<String>,
    portable: bool,
    os: Os,
    found: Ghost<Set<Seq<char>>>,
}

impl View for Sdk {
    type V = SdkView;

    closed spec fn view(&self) -> SdkView {
        SdkView {
            prefix: self.prefix@,
            llvm: self.llvm@,
            llvm_include: self.llvm_include@,
            llvm_lib: self.llvm_lib@,
            llvm_major: self.llvm_major,
            component_llvm: self.component_llvm,
            link_files: views(self.link_files@),
            dependency_includes: views(self.dependency_includes@),
            portable: self.portable,
            os: self.os,
            found: self.found@,
        }
    }
}

/// The install at `prefix` and `llvm` had, among the paths `found`, the
/// SDK's headers, its analyses, its pipeline library and LLVM's
/// `llvm-config`.
pub open spec fn installed(prefix: Seq<char>, llvm: Seq<char>, os: Os, found: Set<Seq<char>>) -> bool {
    &&& found.contains(path_join(prefix, "include/revng"@))
    &&& found.contains(path_join(prefix, "lib/revng/analyses"@))
    &&& found.contains(path_join(path_join(prefix, "lib"@), library_name(os, "revngPipelineC"@)))
    &&& found.contains(path_join(llvm, "bin/llvm-config"@))
}

/// The SDK's library directory.
pub open spec fn lib_dir(prefix: Seq<char>) -> Seq<char> {
    path_join(prefix, "lib"@)
}

/// The directory of the SDK's analysis libraries.
pub open spec fn analyses_dir(prefix: Seq<char>) -> Seq<char> {
    path_join(prefix, "lib/revng/analyses"@)
}

/// Whether `dir` is the directory `p`: the same text, or the same path.
pub open spec fn names_directory(dir: Seq<char>, p: Seq<char>) -> bool {
    dir == p || same_path(dir, p)
}

/// `dirs`, with the parent of `file` added unless it has no parent or one of
/// `dirs` is already that directory.
pub open spec fn add_parent(dirs: Seq<Seq<char>>, file: Seq<char>) -> Seq<Seq<char>> {
    match path_parent(file) {
        Some(p) => if exists|i: int| 0 <= i < dirs.len() && names_directory(dirs[i], p) {
            dirs
        } else {
            dirs.push(p)
        },
        None => dirs,
    }
}

/// `dirs`, with the parents of `files` added in order.
pub open spec fn add_parents(dirs: Seq<Seq<char>>, files: Seq<Seq<char>>) -> Seq<Seq<char>>
    decreases files.len(),
{
    if files.len() == 0 {
        dirs
    } else {
        add_parents(add_parent(dirs, files[0]), files.drop_first())
    }
}

/// The directories the linker searches: the SDK's libraries, its analyses,
/// LLVM's libraries, then the directory of each link file not yet listed.
pub open spec fn search_directories(v: SdkView) -> Seq<Seq<char>> {
    add_parents(seq![lib_dir(v.prefix), analyses_dir(v.prefix), v.llvm_lib], v.link_files)
}

/// The LLVM libraries: the components, or the single `LLVM` library.
pub open spec fn llvm_libraries(v: SdkView) -> Seq<Seq<char>> {
    if v.component_llvm {
        llvm_components()
    } else {
        seq!["LLVM"@]
    }
}

/// The libraries linked by name.
pub open spec fn link_libraries(v: SdkView, existing: Set<Seq<char>>) -> Seq<Seq<char>> {
    base_libraries() + llvm_libraries(v) + present_stems(v.llvm_lib, mlir_libraries(), v.os, existing)
        + seq!["c++"@]
}

/// The libraries that are linked even though nothing refers to them: the
/// registry libraries that exist, then the analysis libraries in name order.
pub open spec fn retained_libraries(v: SdkView, existing: Set<Seq<char>>, analyses: Seq<Seq<char>>) -> Seq<Seq<char>> {
    present_paths(lib_dir(v.prefix), retained_stems(), v.os, existing) + analysis_names(
        v.os,
        analyses,
    ).sort_by(lex_order()).map_values(|name: Seq<char>| path_join(analyses_dir(v.prefix), name))
}

/// The run paths: the search directories, or in a portable build the
/// package's own library directories, relative to the binary.
pub open spec fn rpaths(v: SdkView, dirs: Seq<Seq<char>>) -> Seq<Seq<char>> {
    if !v.portable {
        dirs
    } else {
        seq![origin_of(v.os) + "/../lib"@, origin_of(v.os) + "/../lib/revng/analyses"@]
    }
}

proof fn lemma_add_parents(dirs: Seq<Seq<char>>, files: Seq<Seq<char>>, base: int)
    requires
        0 <= base <= dirs.len(),
        forall|i: int, j: int|
            0 <= i < j < dirs.len() && base <= j ==> !names_directory(dirs[i], dirs[j]),
    ensures
        ({
            let r = add_parents(dirs, files);
            &&& r.len() >= dirs.len()
            &&& forall|i: int| 0 <= i < dirs.len() ==> r[i] == dirs[i]
            &&& forall|i: int, j: int|
                0 <= i < j < r.len() && base <= j ==> !names_directory(r[i], r[j])
            &&& forall|f: int|
                0 <= f < files.len() && #[trigger] path_parent(files[f]) is Some ==> exists|i: int|
                    0 <= i < r.len() && names_directory(r[i], path_parent(files[f])->0)
        }),
    decreases files.len(),
{
    if files.len() > 0 {
        let next = add_parent(dirs, files[0]);
        assert forall|i: int, j: int| 0 <= i < j < next.len() && base <= j implies !names_directory(
            next[i],
            next[j],
        ) by {
            if j == dirs.len() {
                assert(next[i] == dirs[i]);
            } else {
                assert(next[i] == dirs[i] && next[j] == dirs[j]);
            }
        }
        lemma_add_parents(next, files.drop_first(), base);
        let r = add_parents(dirs, files);
        assert forall|f: int| 0 <= f < files.len() && #[trigger] path_parent(files[f]) is Some implies exists|
            i: int,
        | 0 <= i < r.len() && names_directory(r[i], path_parent(files[f])->0) by {
            if f == 0 {
                let p = path_parent(files[0])->0;
                if exists|i: int| 0 <= i < dirs.len() && names_directory(dirs[i], p) {
                    let i = choose|i: int| 0 <= i < dirs.len() && names_directory(dirs[i], p);
                    assert(r[i] == dirs[i]);
                } else {
                    assert(r[dirs.len() as int] == next[dirs.len() as int]);
                }
            } else {
                assert(files.drop_first()[f - 1] == files[f]);
                assert(path_parent(files.drop_first()[f - 1]) is Some);
            }
        }
    }
}

/// The linker's search directories begin with the SDK's libraries, its
/// analyses and LLVM's libraries, in that order; the parent directory of
/// every link file is among them; and no directory added for a link file
/// repeats one listed before it, as text or as the same path.
pub proof fn search_directories_cover_link_files(v: SdkView)
    ensures
        search_directories(v).len() >= 3,
        search_directories(v)[0] == lib_dir(v.prefix),
        search_directories(v)[1] == analyses_dir(v.prefix),
        search_directories(v)[2] == v.llvm_lib,
        forall|f: int|
            0 <= f < v.link_files.len() && #[trigger] path_parent(v.link_files[f]) is Some ==> exists|i: int|
                0 <= i < search_directories(v).len() && names_directory(
                    search_directories(v)[i],
                    path_parent(v.link_files[f])->0,
                ),
        forall|i: int, j: int|
            0 <= i < j < search_directories(v).len() && 3 <= j ==> !names_directory(
                search_directories(v)[i],
                search_directories(v)[j],
            ),
{
    let base = seq![lib_dir(v.prefix), analyses_dir(v.prefix), v.llvm_lib];
    lemma_add_parents(base, v.link_files, 3);
    let sd = search_directories(v);
    assert(sd == add_parents(base, v.link_files));
    assert forall|f: int|
        0 <= f < v.link_files.len() && #[trigger] path_parent(v.link_files[f]) is Some implies exists|
        i: int,
    | 0 <= i < sd.len() && names_directory(sd[i], path_parent(v.link_files[f])->0) by {
        assert(path_parent(v.link_files[f]) is Some);
    }
    assert(sd.len() >= 3);
    assert(sd[0] == lib_dir(v.prefix) && sd[1] == analyses_dir(v.prefix) && sd[2] == v.llvm_lib);
}

/// Every SDK links the revng libraries by name first: exactly
/// `revngPipelineC`, `revngSupport` and `revngModel`, in that order, each
/// with its own link directive.
pub proof fn every_sdk_links_the_revng_libraries(v: SdkView, existing: Set<Seq<char>>, analyses: Seq<Seq<char>>)
    ensures
        link_libraries(v, existing).take(3) == seq!["revngPipelineC"@, "revngSupport"@, "revngModel"@],
        link_libraries(v, existing)[3] == (if v.component_llvm {
            "LLVMCore"@
        } else {
            "LLVM"@
        }),
        link_libraries(v, existing).last() == "c++"@,
        link_directives(v, existing, analyses).contains("cargo::rustc-link-lib=dylib=revngPipelineC"@),
        link_directives(v, existing, analyses).contains("cargo::rustc-link-lib=dylib=revngSupport"@),
        link_directives(v, existing, analyses).contains("cargo::rustc-link-lib=dylib=revngModel"@),
{
    let libs = link_libraries(v, existing);
    let names = seq!["revngPipelineC"@, "revngSupport"@, "revngModel"@];
    assert(libs.take(3) =~= names);
    let dirs = search_directories(v);
    let d = link_directives(v, existing, analyses);
    let head = prefixed("cargo::rustc-link-search=native="@, dirs);
    let linked = prefixed("cargo::rustc-link-lib=dylib="@, libs);
    let h = head.len() as int;
    let rest = d.skip(h + linked.len());
    assert(d =~= head + linked + rest);
    reveal_strlit("cargo::rustc-link-lib=dylib=");
    reveal_strlit("revngPipelineC");
    reveal_strlit("revngSupport");
    reveal_strlit("revngModel");
    reveal_strlit("cargo::rustc-link-lib=dylib=revngPipelineC");
    reveal_strlit("cargo::rustc-link-lib=dylib=revngSupport");
    reveal_strlit("cargo::rustc-link-lib=dylib=revngModel");
    assert(d[h + 0] == linked[0]);
    assert(d[h + 1] == linked[1]);
    assert(d[h + 2] == linked[2]);
    assert(linked[0] =~= "cargo::rustc-link-lib=dylib=revngPipelineC"@);
    assert(linked[1] =~= "cargo::rustc-link-lib=dylib=revngSupport"@);
    assert(linked[2] =~= "cargo::rustc-link-lib=dylib=revngModel"@);
}

/// For an SDK at an absolute prefix, the run paths all start at the
/// loader's origin exactly when the build is portable: otherwise the first
/// is the SDK's own library directory, an absolute path.
pub proof fn rpaths_are_relative_iff_portable(v: SdkView)
    requires
        is_absolute(v.prefix),
    ensures
        v.portable <==> forall|i: int|
            0 <= i < rpaths(v, search_directories(v)).len() ==> has_prefix(
                #[trigger] rpaths(v, search_directories(v))[i],
                origin_of(v.os),
            ),
{
    let dirs = search_directories(v);
    if v.portable {
        portable_rpaths_stay_in_the_package(v, dirs);
    } else {
        search_directories_cover_link_files(v);
        reveal_strlit("$ORIGIN");
        reveal_strlit("@loader_path");
        reveal_strlit("lib");
        let first = rpaths(v, dirs)[0];
        assert(first == path_join(v.prefix, "lib"@));
        assert(first[0] == '/');
        if has_prefix(first, origin_of(v.os)) {
            assert(first.take(origin_of(v.os).len() as int)[0] == origin_of(v.os)[0]);
        }
    }
}

/// Portability is a setting of its own: setting it twice is setting it the
/// second time, and (for an SDK at an absolute prefix) the run paths all
/// start at the loader's origin exactly when the last setting asked for it.
pub proof fn the_last_portability_setting_decides(v: SdkView, first: bool, second: bool)
    requires
        is_absolute(v.prefix),
    ensures
        (SdkView { portable: second, ..SdkView { portable: first, ..v } }) == (SdkView { portable: second, ..v }),
        ({
            let w = SdkView { portable: second, ..v };
            second <==> forall|i: int|
                0 <= i < rpaths(w, search_directories(w)).len() ==> has_prefix(
                    #[trigger] rpaths(w, search_directories(w))[i],
                    origin_of(w.os),
                )
        }),
{
    rpaths_are_relative_iff_portable(SdkView { portable: second, ..v });
}

/// In a portable build no run path is absolute: each starts at the loader's
/// origin, so none names the SDK's or LLVM's install directory.
pub proof fn portable_rpaths_stay_in_the_package(v: SdkView, dirs: Seq<Seq<char>>)
    requires
        v.portable,
    ensures
        rpaths(v, dirs).len() == 2,
        forall|i: int| 0 <= i < 2 ==> has_prefix(#[trigger] rpaths(v, dirs)[i], origin_of(v.os)),
        forall|i: int| 0 <= i < 2 ==> !is_absolute(#[trigger] rpaths(v, dirs)[i]),
        forall|i: int|
            0 <= i < 2 && is_absolute(v.prefix) ==> !has_prefix(#[trigger] rpaths(v, dirs)[i], v.prefix),
        forall|i: int|
            0 <= i < 2 && is_absolute(v.llvm) ==> !has_prefix(#[trigger] rpaths(v, dirs)[i], v.llvm),
{
    let o = origin_of(v.os);
    reveal_strlit("$ORIGIN");
    reveal_strlit("@loader_path");
    let r = rpaths(v, dirs);
    assert forall|i: int| 0 <= i < 2 implies has_prefix(#[trigger] rpaths(v, dirs)[i], o) && r[i][0] == o[0] by {
        let s = if i == 0 { "/../lib"@ } else { "/../lib/revng/analyses"@ };
        assert(r[i] == o + s);
        assert((o + s).take(o.len() as int) =~= o);
    }
}

/// The directive that makes the linker keep a library.
pub open spec fn retain_prefix(os: Os) -> Seq<char> {
    match os {
        Os::Linux => "cargo::rustc-link-arg="@,
        Os::MacOs => "cargo::rustc-link-arg=-Wl,-needed_library,"@,
    }
}

/// All linker directives, in the order Cargo receives them.
pub open spec fn link_directives(v: SdkView, existing: Set<Seq<char>>, analyses: Seq<Seq<char>>) -> Seq<
    Seq<char>,
> {
    let dirs = search_directories(v);
    let retained = retained_libraries(v, existing, analyses);
    let linux = v.os == Os::Linux;
    prefixed("cargo::rustc-link-search=native="@, dirs) + prefixed(
        "cargo::rustc-link-lib=dylib="@,
        link_libraries(v, existing),
    ) + (if linux && retained.len() > 0 {
        seq!["cargo::rustc-link-arg=-Wl,--no-as-needed"@]
    } else {
        seq![]
    }) + prefixed(retain_prefix(v.os), retained) + (if linux {
        seq![
            "cargo::rustc-link-arg=-Wl,--allow-shlib-undefined"@,
            "cargo::rustc-link-arg=-Wl,--disable-new-dtags"@,
        ]
    } else {
        seq![]
    }) + prefixed("cargo::rustc-link-arg="@, v.link_files) + prefixed(
        "cargo::rustc-link-arg=-Wl,-rpath,"@,
        rpaths(v, dirs),
    )
}

/// Appends `prefix + item` for each item.
fn push_prefixed(out: &mut Vec<String>, prefix: &str, items: &Vec<String>)
    ensures
        views(final(out)@) == views(old(out)@) + prefixed(prefix@, views(items@)),
{
    let n = items.len();
    for i in 0..n
        invariant
            n == items.len(),
            views(out@) == views(old(out)@) + prefixed(prefix@, views(items@).take(i as int)),
    {
        let ghost before = views(out@);
        out.push(concat(prefix, items[i].as_str()));
        assert(views(out@) =~= before.push(prefix@ + items@[i as int]@));
        assert(prefixed(prefix@, views(items@).take(i + 1)) =~= prefixed(
            prefix@,
            views(items@).take(i as int),
        ).push(prefix@ + items@[i as int]@));
    }
    assert(views(items@).take(n as int) =~= views(items@));
}

/// Appends one string.
fn push_str(out: &mut Vec<String>, s: &str)
    ensures
        views(final(out)@) == views(old(out)@).push(s@),
{
    let ghost before = views(out@);
    out.push(String::from_str(s));
    assert(views(out@) =~= before.push(s@));
}

/// The stems among `stems` whose library exists in `dir`, with their paths.
fn present_libraries(dir: &str, stems: &Vec<&'static str>, os: Os, existing: &PathSet) -> (r: (
    Vec<String>,
    Vec<String>,
))
    ensures
        views(r.0@) == present_stems(dir@, str_views(stems@), os, existing@),
        views(r.1@) == present_paths(dir@, str_views(stems@), os, existing@),
{
    let mut found: Vec<String> = Vec::new();
    let mut paths: Vec<String> = Vec::new();
    let n = stems.len();
    for i in 0..n
        invariant
            n == stems.len(),
            views(found@) == present_stems(dir@, str_views(stems@).take(i as int), os, existing@),
            views(paths@) == present_paths(dir@, str_views(stems@).take(i as int), os, existing@),
    {
        let stem = stems[i];
        let path = join(dir, os.library(stem).as_str());
        let ghost t = str_views(stems@).take(i + 1);
        assert(t.drop_last() =~= str_views(stems@).take(i as int));
        assert(t.last() == stem@);
        let ghost before_found = views(found@);
        let ghost before_paths = views(paths@);
        if existing.contains(&path) {
            found.push(String::from_str(stem));
            paths.push(path);
            assert(views(found@) =~= before_found.push(stem@));
            assert(views(paths@) =~= before_paths.push(path_join(dir@, library_name(os, stem@))));
        }
        assert(present_paths(dir@, t, os, existing@) =~= present_stems(dir@, t, os, existing@).map_values(
            |stem: Seq<char>| path_join(dir@, library_name(os, stem)),
        ));
        assert(present_paths(dir@, t, os, existing@) =~= views(paths@));
    }
    assert(str_views(stems@).take(n as int) =~= str_views(stems@));
    (found, paths)
}

/// Appends each of `items` as a string.
fn push_strs(out: &mut Vec<String>, items: &Vec<&'static str>)
    ensures
        views(final(out)@) == views(old(out)@) + str_views(items@),
{
    let n = items.len();
    for i in 0..n
        invariant
            n == items.len(),
            views(out@) == views(old(out)@) + str_views(items@).take(i as int),
    {
        push_str(out, items[i]);
        assert(str_views(items@).take(i + 1) =~= str_views(items@).take(i as int).push(
            items@[i as int]@,
        ));
    }
    assert(str_views(items@).take(n as int) =~= str_views(items@));
}

impl Sdk {
    /// Every SDK is built against the pinned LLVM major version, and its
    /// install had the SDK's headers, analyses and pipeline library and
    /// LLVM's `llvm-config` when it was checked.
    #[verifier::type_invariant]
    spec fn discovered(self) -> bool {
        &&& self.llvm_major == LLVM_MAJOR
        &&& installed(self.prefix@, self.llvm@, self.os, self.found@)
        &&& is_absolute(self.prefix@)
    }

    /// An SDK made of the parts that discovery found: a checked install at an
    /// absolute prefix (discovery canonicalises it), and an LLVM of the
    /// pinned major version (as `parse_llvm_config` ensures).
    pub fn from_parts(parts: SdkParts) -> (r: Sdk)
        requires
            parts.llvm_major == LLVM_MAJOR,
            is_absolute(parts.install@.prefix),
        ensures
            r@ == (SdkView {
                prefix: parts.install@.prefix,
                llvm: parts.install@.llvm,
                llvm_include: parts.llvm_include@,
                llvm_lib: parts.llvm_lib@,
                llvm_major: parts.llvm_major,
                component_llvm: parts.component_llvm,
                link_files: views(parts.link_files@),
                dependency_includes: views(parts.dependency_includes@),
                portable: parts.portable,
                os: parts.install@.os,
                found: parts.install@.found,
            }),
    {
        let ghost install = parts.install@;
        let (prefix, llvm, os) = parts.install.into_parts();
        proof {
            lemma_none_missing(required_paths(prefix@, llvm@, os, install.compiler), install.found);
            assert(install.found.contains(required_paths(prefix@, llvm@, os, install.compiler)[0]));
            assert(install.found.contains(required_paths(prefix@, llvm@, os, install.compiler)[1]));
            assert(install.found.contains(required_paths(prefix@, llvm@, os, install.compiler)[2]));
            assert(install.found.contains(required_paths(prefix@, llvm@, os, install.compiler)[3]));
        }
        Sdk {
            prefix,
            llvm,
            llvm_include: parts.llvm_include,
            llvm_lib: parts.llvm_lib,
            llvm_major: parts.llvm_major,
            component_llvm: parts.component_llvm,
            link_files: parts.link_files,
            dependency_includes: parts.dependency_includes,
            portable: parts.portable,
            os,
            found: Ghost(install.found),
        }
    }

    /// The install prefix of the revng SDK, which held the SDK's headers,
    /// analyses and pipeline library when the install was checked.
    pub fn prefix(&self) -> (r: &str)
        ensures
            r@ == self@.prefix,
            installed(r@, self@.llvm, self@.os, self@.found),
            is_absolute(r@),
    {
        proof {
            use_type_invariant(self);
        }
        self.prefix.as_str()
    }

    /// The install prefix of LLVM, which held `llvm-config` when the install
    /// was checked.
    pub fn llvm(&self) -> (r: &str)
        ensures
            r@ == self@.llvm,
            installed(self@.prefix, r@, self@.os, self@.found),
    {
        proof {
            use_type_invariant(self);
        }
        self.llvm.as_str()
    }

    /// LLVM's header directory.
    pub fn llvm_include(&self) -> (r: &str)
        ensures
            r@ == self@.llvm_include,
    {
        self.llvm_include.as_str()
    }

    /// LLVM's major version: always the pinned one.
    pub fn llvm_major(&self) -> (r: u32)
        ensures
            r == self@.llvm_major,
            r == LLVM_MAJOR,
    {
        proof {
            use_type_invariant(self);
        }
        self.llvm_major
    }

    /// The same SDK, with run paths relative to the binary when `portable`.
    pub fn with_portable(self, portable: bool) -> (r: Sdk)
        ensures
            r@ == (SdkView { portable, ..self@ }),
    {
        proof {
            use_type_invariant(&self);
        }
        let mut s = self;
        s.portable = portable;
        s
    }

    /// The C++ compiler that builds against the SDK: on Linux the `clang++`
    /// that the search path holds now (`located`, where a lookup found it),
    /// else plain `clang++`; on macOS Apple's.
    pub fn compiler(&self, located: Option<String>) -> (r: String)
        ensures
            r@ == compiler_path(self@.os, opt_view(located)),
    {
        compiler_for(self.os, located)
    }

    /// The target's operating system.
    pub fn os(&self) -> (r: Os)
        ensures
            r == self@.os,
    {
        self.os
    }

    /// Header directories of the SDK's dependencies.
    pub fn dependency_includes(&self) -> (r: Vec<String>)
        ensures
            views(r@) == self@.dependency_includes,
    {
        clone_strings(&self.dependency_includes)
    }

    /// The directories the linker searches: the SDK's libraries, its
    /// analyses, LLVM's libraries, then the directory of each link file that
    /// is not one of them already.
    pub fn search_directories(&self) -> (r: Vec<String>)
        ensures
            views(r@) == search_directories(self@),
    {
        let mut dirs: Vec<String> = Vec::new();
        dirs.push(join(self.prefix.as_str(), "lib"));
        dirs.push(join(self.prefix.as_str(), "lib/revng/analyses"));
        dirs.push(self.llvm_lib.clone());
        let ghost base = seq![lib_dir(self.prefix@), analyses_dir(self.prefix@), self.llvm_lib@];
        assert(views(dirs@) =~= base);
        let n = self.link_files.len();
        let ghost files = views(self.link_files@);
        assert(files.skip(0) =~= files);
        for i in 0..n
            invariant
                n == self.link_files.len(),
                files == views(self.link_files@),
                add_parents(base, files) == add_parents(views(dirs@), files.skip(i as int)),
        {
            let ghost cur = views(dirs@);
            assert(files.skip(i as int).drop_first() =~= files.skip(i + 1));
            assert(files.skip(i as int)[0] == self.link_files@[i as int]@);
            match parent(self.link_files[i].as_str()) {
                Some(p) => {
                    let mut seen = false;
                    let m = dirs.len();
                    for j in 0..m
                        invariant
                            m == dirs.len(),
                            cur == views(dirs@),
                            seen == (exists|k: int| 0 <= k < j && names_directory(cur[k], p@)),
                    {
                        if paths_equal(dirs[j].as_str(), p.as_str()) {
                            seen = true;
                        }
                        assert(cur[j as int] == dirs@[j as int]@);
                    }
                    if !seen {
                        dirs.push(p);
                        assert(views(dirs@) =~= cur.push(p@));
                    }
                },
                None => {},
            }
            assert(add_parent(cur, files.skip(i as int)[0]) == views(dirs@));
        }
        assert(files.skip(n as int) =~= Seq::<Seq<char>>::empty());
        dirs
    }

    /// The run paths to record in the consumer.
    pub fn rpaths(&self, search_directories: &Vec<String>) -> (r: Vec<String>)
        ensures
            views(r@) == rpaths(self@, views(search_directories@)),
    {
        if !self.portable {
            return clone_strings(search_directories);
        }
        let origin = self.os.loader_origin();
        let mut r: Vec<String> = Vec::new();
        r.push(concat(origin, "/../lib"));
        r.push(concat(origin, "/../lib/revng/analyses"));
        assert(views(r@) =~= rpaths(self@, views(search_directories@)));
        r
    }

    /// The files whose existence the linker directives depend on: the MLIR
    /// libraries in LLVM's library directory and the registry libraries in
    /// the SDK's.
    pub fn link_probes(&self) -> (r: Vec<String>)
        ensures
            views(r@) == mlir_libraries().map_values(
                |stem: Seq<char>| path_join(self@.llvm_lib, library_name(self@.os, stem)),
            ) + retained_stems().map_values(
                |stem: Seq<char>| path_join(lib_dir(self@.prefix), library_name(self@.os, stem)),
            ),
    {
        let mut r: Vec<String> = Vec::new();
        let mlir = mlir_library_list();
        let n = mlir.len();
        for i in 0..n
            invariant
                n == mlir.len(),
                str_views(mlir@) == mlir_libraries(),
                views(r@) == mlir_libraries().take(i as int).map_values(
                    |stem: Seq<char>| path_join(self@.llvm_lib, library_name(self@.os, stem)),
                ),
        {
            let ghost before = views(r@);
            let path = join(self.llvm_lib.as_str(), self.os.library(mlir[i]).as_str());
            r.push(path);
            assert(views(r@) =~= before.push(path@));
            assert(mlir_libraries()[i as int] == mlir@[i as int]@);
            assert(mlir_libraries().take(i + 1) =~= mlir_libraries().take(i as int).push(mlir@[i as int]@));
            assert(views(r@) =~= mlir_libraries().take(i + 1).map_values(
                |stem: Seq<char>| path_join(self@.llvm_lib, library_name(self@.os, stem)),
            ));
        }
        let ghost first = views(r@);
        assert(mlir_libraries().take(n as int) =~= mlir_libraries());
        let lib = join(self.prefix.as_str(), "lib");
        let stems = retained_stem_list();
        let m = stems.len();
        for i in 0..m
            invariant
                m == stems.len(),
                lib@ == lib_dir(self.prefix@),
                str_views(stems@) == retained_stems(),
                views(r@) == first + retained_stems().take(i as int).map_values(
                    |stem: Seq<char>| path_join(lib_dir(self@.prefix), library_name(self@.os, stem)),
                ),
        {
            let ghost before = views(r@);
            let path = join(lib.as_str(), self.os.library(stems[i]).as_str());
            r.push(path);
            assert(views(r@) =~= before.push(path@));
            assert(retained_stems()[i as int] == stems@[i as int]@);
            assert(retained_stems().take(i + 1) =~= retained_stems().take(i as int).push(stems@[i as int]@));
            assert(views(r@) =~= first + retained_stems().take(i + 1).map_values(
                |stem: Seq<char>| path_join(lib_dir(self@.prefix), library_name(self@.os, stem)),
            ));
        }
        assert(retained_stems().take(m as int) =~= retained_stems());
        r
    }

    /// The libraries kept whether or not anything refers to them: the
    /// registry libraries that exist, then the analysis libraries among
    /// `analyses` (the names in the analyses directory) in name order.
    pub fn retained_libraries(&self, existing: &PathSet, analyses: &Vec<String>) -> (r: Vec<String>)
        ensures
            views(r@) == retained_libraries(self@, existing@, views(analyses@)),
    {
        let lib = join(self.prefix.as_str(), "lib");
        let (_, mut retained) = present_libraries(lib.as_str(), &retained_stem_list(), self.os, existing);
        let ext = chars_of(self.os.extension());
        let start = chars_of("librevng");
        let mut wanted: Vec<String> = Vec::new();
        let n = analyses.len();
        for i in 0..n
            invariant
                n == analyses.len(),
                ext@ == extension_of(self.os),
                start@ == "librevng"@,
                views(wanted@) == analysis_names(self.os, views(analyses@).take(i as int)),
        {
            let name = chars_of(analyses[i].as_str());
            let ghost t = views(analyses@).take(i + 1);
            assert(t.drop_last() =~= views(analyses@).take(i as int));
            assert(t.last() == analyses@[i as int]@);
            if starts_with(&name, &start) && ends_with(&name, &ext) {
                let ghost before = views(wanted@);
                wanted.push(analyses[i].clone());
                assert(views(wanted@) =~= before.push(analyses@[i as int]@));
            }
        }
        assert(views(analyses@).take(n as int) =~= views(analyses@));
        let sorted = sort_strings(&wanted);
        let dir = join(self.prefix.as_str(), "lib/revng/analyses");
        let ghost first = views(retained@);
        let ghost names = views(sorted@);
        let m = sorted.len();
        for i in 0..m
            invariant
                m == sorted.len(),
                names == views(sorted@),
                dir@ == analyses_dir(self.prefix@),
                views(retained@) == first + names.take(i as int).map_values(
                    |name: Seq<char>| path_join(analyses_dir(self.prefix@), name),
                ),
        {
            let ghost before = views(retained@);
            let path = join(dir.as_str(), sorted[i].as_str());
            retained.push(path);
            assert(views(retained@) =~= before.push(path@));
            assert(names[i as int] == sorted@[i as int]@);
            assert(names.take(i + 1) =~= names.take(i as int).push(names[i as int]));
            assert(views(retained@) =~= first + names.take(i + 1).map_values(
                |name: Seq<char>| path_join(analyses_dir(self.prefix@), name),
            ));
        }
        assert(names.take(m as int) =~= names);
        retained
    }

    /// The Cargo directives that link a crate against the SDK: library search
    /// paths, the libraries by name, the libraries kept whole, the C++
    /// runtime files, and the run paths. `existing` holds which of
    /// `link_probes` exist; `analyses` names the files in the analyses
    /// directory.
    pub fn link_directives(&self, existing: &PathSet, analyses: &Vec<String>) -> (r: Vec<String>)
        ensures
            views(r@) == link_directives(self@, existing@, views(analyses@)),
    {
        let mut directives: Vec<String> = Vec::new();
        let dirs = self.search_directories();
        push_prefixed(&mut directives, "cargo::rustc-link-search=native=", &dirs);
        let ghost part1 = views(directives@);

        let mut libraries: Vec<String> = Vec::new();
        push_strs(&mut libraries, &base_library_list());
        if self.component_llvm {
            push_strs(&mut libraries, &llvm_component_list());
        } else {
            push_str(&mut libraries, "LLVM");
            assert(seq!["LLVM"@] =~= seq![].push("LLVM"@));
        }
        let (mlir, _) = present_libraries(self.llvm_lib.as_str(), &mlir_library_list(), self.os, existing);
        let ghost before_mlir = views(libraries@);
        let n = mlir.len();
        for i in 0..n
            invariant
                n == mlir.len(),
                views(libraries@) == before_mlir + views(mlir@).take(i as int),
        {
            let ghost before = views(libraries@);
            libraries.push(mlir[i].clone());
            assert(views(libraries@) =~= before.push(mlir@[i as int]@));
            assert(views(mlir@).take(i + 1) =~= views(mlir@).take(i as int).push(mlir@[i as int]@));
        }
        assert(views(mlir@).take(n as int) =~= views(mlir@));
        push_str(&mut libraries, "c++");
        assert(views(libraries@) =~= link_libraries(self@, existing@));
        push_prefixed(&mut directives, "cargo::rustc-link-lib=dylib=", &libraries);

        let retained = self.retained_libraries(existing, analyses);
        let linux = match self.os {
            Os::Linux => true,
            Os::MacOs => false,
        };
        let ghost part2 = views(directives@);
        if linux && retained.len() > 0 {
            push_str(&mut directives, "cargo::rustc-link-arg=-Wl,--no-as-needed");
        }
        let ghost part3 = views(directives@);
        let retain = match self.os {
            Os::Linux => "cargo::rustc-link-arg=",
            Os::MacOs => "cargo::rustc-link-arg=-Wl,-needed_library,",
        };
        push_prefixed(&mut directives, retain, &retained);
        let ghost part4 = views(directives@);
        if linux {
            push_str(&mut directives, "cargo::rustc-link-arg=-Wl,--allow-shlib-undefined");
            push_str(&mut directives, "cargo::rustc-link-arg=-Wl,--disable-new-dtags");
        }
        let ghost part5 = views(directives@);
        push_prefixed(&mut directives, "cargo::rustc-link-arg=", &self.link_files);
        let rpaths = self.rpaths(&dirs);
        push_prefixed(&mut directives, "cargo::rustc-link-arg=-Wl,-rpath,", &rpaths);
        proof {
            let v = self@;
            assert(part3 =~= part2 + (if v.os == Os::Linux && retained@.len() > 0 {
                seq!["cargo::rustc-link-arg=-Wl,--no-as-needed"@]
            } else {
                seq![]
            }));
            assert(part5 =~= part4 + (if v.os == Os::Linux {
                seq![
                    "cargo::rustc-link-arg=-Wl,--allow-shlib-undefined"@,
                    "cargo::rustc-link-arg=-Wl,--disable-new-dtags"@,
                ]
            } else {
                seq![]
            }));
            assert(views(directives@) =~= link_directives(v, existing@, views(analyses@)));
        }
        directives
    }
}

} // verus!
