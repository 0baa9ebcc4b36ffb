//! Assembling a relocatable runtime package from a provisioned cache and a
//! consumer binary: the package's layout, how the two library trees merge,
//! and the checks that nothing escapes the package.
use vstd::prelude::*;
use vstd::string::StringExecFns;

use crate::discovery::{find_missing, first_missing};
use crate::os::{Os, names_dynamic_library};
use crate::paths::{PathSet, file_name, join, path_file_name, path_join};
use crate::text::{
    chars_of, concat, contains_exec, decimal, has_infix, join_strings, join_with, lemma_lex_common_prefix,
    lemma_lex_reflexive, lemma_lex_total, lemma_lex_transitive, lex_le, lex_le_exec, push_decimal, str_eq, views,
};

verus! {

/// Why a package could not be assembled.
#[derive(Debug)]
pub enum Error {
    /// The same library file name is in both library trees (or twice).
    Collision { name: String, first: String, second: String },
    /// An object's bytes could not be parsed; `message` says why.
    Inspect { path: String, message: String },
    /// A packaged object needs a library from outside the package.
    EscapedDependency { library: String, dependency: String },
    /// An input does not exist.
    MissingInput(String),
    /// The output directory exists and is not empty.
    OutputNotEmpty(String),
    /// A tool exited unsuccessfully on `target`.
    Tool { tool: &'static str, target: String },
    /// A file is not the object format expected.
    UnexpectedFormat { path: String, expected: &'static str },
    /// A needed library is in none of the system's library directories.
    UnresolvedDependency { library: String, dependency: String },
    /// The host is neither Linux nor macOS.
    UnsupportedTarget(String),
}

/// What a finished run of an external tool on `target` comes to: nothing
/// when it succeeded, otherwise `Tool`.
pub fn tool_outcome(tool: &'static str, target: &str, succeeded: bool) -> (r: Result<(), Error>)
    ensures
        match r {
            Ok(()) => succeeded,
            Err(e) => !succeeded && (e matches Error::Tool { tool: t, target: g } && t == tool && g@
                == target@),
        },
{
    if succeeded {
        Ok(())
    } else {
        Err(Error::Tool { tool, target: String::from_str(target) })
    }
}

/// The object file formats that packaging tells apart.
#[derive(Clone, Copy, Debug, PartialEq, Eq, Structural)]
pub enum ObjectFormat {
    Elf32,
    Elf64,
    MachO32,
    MachO64,
    /// Any other format, or a Mach-O fat file.
    Other,
}

/// The word size of an object file.
#[derive(Clone, Copy, Debug, PartialEq, Eq, Structural)]
pub enum Width {
    Bits32,
    Bits64,
}

/// The word size of an ELF object, and nothing for any other format.
pub open spec fn elf_width(format: ObjectFormat) -> Option<Width> {
    match format {
        ObjectFormat::Elf32 => Some(Width::Bits32),
        ObjectFormat::Elf64 => Some(Width::Bits64),
        _ => None,
    }
}

/// The word size of a Mach-O object, and nothing for any other format.
pub open spec fn macho_width(format: ObjectFormat) -> Option<Width> {
    match format {
        ObjectFormat::MachO32 => Some(Width::Bits32),
        ObjectFormat::MachO64 => Some(Width::Bits64),
        _ => None,
    }
}

/// The word size of the ELF object at `path`, whose format is `format`; any
/// other format is `UnexpectedFormat`.
pub fn expect_elf(path: &str, format: ObjectFormat) -> (r: Result<Width, Error>)
    ensures
        match r {
            Ok(w) => elf_width(format) == Some(w),
            Err(e) => elf_width(format) is None && (e matches Error::UnexpectedFormat { path: p, expected }
                && p@ == path@ && expected@ == "ELF"@),
        },
{
    match format {
        ObjectFormat::Elf32 => Ok(Width::Bits32),
        ObjectFormat::Elf64 => Ok(Width::Bits64),
        _ => Err(Error::UnexpectedFormat { path: String::from_str(path), expected: "ELF" }),
    }
}

/// The word size of the Mach-O object at `path`, whose format is `format`;
/// any other format is `UnexpectedFormat`.
pub fn expect_macho(path: &str, format: ObjectFormat) -> (r: Result<Width, Error>)
    ensures
        match r {
            Ok(w) => macho_width(format) == Some(w),
            Err(e) => macho_width(format) is None && (e matches Error::UnexpectedFormat {
                path: p,
                expected,
            } && p@ == path@ && expected@ == "Mach-O"@),
        },
{
    match format {
        ObjectFormat::MachO32 => Ok(Width::Bits32),
        ObjectFormat::MachO64 => Ok(Width::Bits64),
        _ => Err(Error::UnexpectedFormat { path: String::from_str(path), expected: "Mach-O" }),
    }
}

/// The host operating systems packaging supports.
pub open spec fn host_os(name: Seq<char>) -> Option<Os> {
    if name == "linux"@ {
        Some(Os::Linux)
    } else if name == "macos"@ {
        Some(Os::MacOs)
    } else {
        None
    }
}

impl Os {
    /// The operating system named by `std::env::consts::OS`, or
    /// `UnsupportedTarget`.
    pub fn host(name: &str) -> (r: Result<Os, Error>)
        ensures
            match r {
                Ok(o) => host_os(name@) == Some(o),
                Err(e) => host_os(name@) is None && (e matches Error::UnsupportedTarget(n) && n@
                    == name@),
            },
    {
        if str_eq(name, "linux") {
            Ok(Os::Linux)
        } else if str_eq(name, "macos") {
            Ok(Os::MacOs)
        } else {
            Err(Error::UnsupportedTarget(String::from_str(name)))
        }
    }
}

// ---------------------------------------------------------------------------
// System libraries
// ---------------------------------------------------------------------------

/// The dynamic loader of a Linux architecture.
pub open spec fn loader_of(arch: Seq<char>) -> Seq<char> {
    if arch == "aarch64"@ {
        "ld-linux-aarch64.so.1"@
    } else {
        "ld-linux-x86-64.so.2"@
    }
}

/// The libraries every Linux system provides, which are never bundled.
pub open spec fn system_libraries() -> Seq<Seq<char>> {
    seq![
        "libc.so.6"@,
        "libdl.so.2"@,
        "libgcc_s.so.1"@,
        "libm.so.6"@,
        "libpthread.so.0"@,
        "libresolv.so.2"@,
        "librt.so.1"@,
        "libutil.so.1"@,
        "linux-vdso.so.1"@,
    ]
}

/// A library the system provides: the loader of `arch`, or one of
/// `system_libraries`.
pub open spec fn is_system(soname: Seq<char>, arch: Seq<char>) -> bool {
    soname == loader_of(arch) || system_libraries().contains(soname)
}

/// On every architecture the system provides the C library and its
/// companions: `libc.so.6`, `libdl.so.2`, `libgcc_s.so.1`, `libm.so.6`,
/// `libpthread.so.0`, `libresolv.so.2`, `librt.so.1`, `libutil.so.1` and
/// `linux-vdso.so.1`, as well as the architecture's loader.
pub proof fn the_c_library_is_the_systems(arch: Seq<char>)
    ensures
        is_system("libc.so.6"@, arch),
        is_system("libdl.so.2"@, arch),
        is_system("libgcc_s.so.1"@, arch),
        is_system("libm.so.6"@, arch),
        is_system("libpthread.so.0"@, arch),
        is_system("libresolv.so.2"@, arch),
        is_system("librt.so.1"@, arch),
        is_system("libutil.so.1"@, arch),
        is_system("linux-vdso.so.1"@, arch),
        is_system(loader_of(arch), arch),
        forall|n: Seq<char>|
            #[trigger] is_system(n, arch) ==> n == loader_of(arch) || n == "libc.so.6"@ || n == "libdl.so.2"@
                || n == "libgcc_s.so.1"@ || n == "libm.so.6"@ || n == "libpthread.so.0"@ || n
                == "libresolv.so.2"@ || n == "librt.so.1"@ || n == "libutil.so.1"@ || n == "linux-vdso.so.1"@,
{
    let l = system_libraries();
    assert(l[0] == "libc.so.6"@);
    assert(l[1] == "libdl.so.2"@);
    assert(l[2] == "libgcc_s.so.1"@);
    assert(l[3] == "libm.so.6"@);
    assert(l[4] == "libpthread.so.0"@);
    assert(l[5] == "libresolv.so.2"@);
    assert(l[6] == "librt.so.1"@);
    assert(l[7] == "libutil.so.1"@);
    assert(l[8] == "linux-vdso.so.1"@);
    assert forall|n: Seq<char>| #[trigger] is_system(n, arch) implies n == loader_of(arch) || n == "libc.so.6"@
        || n == "libdl.so.2"@ || n == "libgcc_s.so.1"@ || n == "libm.so.6"@ || n == "libpthread.so.0"@ || n
        == "libresolv.so.2"@ || n == "librt.so.1"@ || n == "libutil.so.1"@ || n == "linux-vdso.so.1"@ by {
        if n != loader_of(arch) {
            let i = choose|i: int| 0 <= i < l.len() && l[i] == n;
        }
    }
}

/// The dynamic loader of the architecture `arch` (`std::env::consts::ARCH`).
pub fn linux_loader(arch: &str) -> (r: &'static str)
    ensures
        r@ == loader_of(arch@),
{
    if str_eq(arch, "aarch64") {
        "ld-linux-aarch64.so.1"
    } else {
        "ld-linux-x86-64.so.2"
    }
}

/// Whether the system provides the library `soname` (see `is_system`).
pub fn is_system_library(soname: &str, arch: &str) -> (r: bool)
    ensures
        r == is_system(soname@, arch@),
{
    if str_eq(soname, linux_loader(arch)) {
        return true;
    }
    let names = vec![
        "libc.so.6",
        "libdl.so.2",
        "libgcc_s.so.1",
        "libm.so.6",
        "libpthread.so.0",
        "libresolv.so.2",
        "librt.so.1",
        "libutil.so.1",
        "linux-vdso.so.1",
    ];
    let ghost all = names@.map_values(|s: &str| s@);
    assert(all =~= system_libraries());
    let n = names.len();
    for i in 0..n
        invariant
            n == names.len(),
            all == names@.map_values(|s: &str| s@),
            all == system_libraries(),
            forall|j: int| 0 <= j < i ==> all[j] != soname@,
    {
        if str_eq(soname, names[i]) {
            assert(all[i as int] == soname@);
            return true;
        }
    }
    assert(!system_libraries().contains(soname@));
    false
}

/// Where Linux keeps shared libraries, in search order: the multiarch
/// directories of `arch`, then the generic ones.
pub open spec fn linux_library_directories(arch: Seq<char>) -> Seq<Seq<char>> {
    let triplet = arch + "-linux-gnu"@;
    seq!["/usr/lib/"@ + triplet, "/lib/"@ + triplet, "/usr/lib64"@, "/lib64"@, "/usr/lib"@, "/lib"@]
}

/// Where Linux keeps shared libraries for `arch`, in search order.
pub fn linux_directories(arch: &str) -> (r: Vec<String>)
    ensures
        views(r@) == linux_library_directories(arch@),
{
    let triplet = concat(arch, "-linux-gnu");
    let mut r: Vec<String> = Vec::new();
    r.push(concat("/usr/lib/", triplet.as_str()));
    r.push(concat("/lib/", triplet.as_str()));
    r.push(String::from_str("/usr/lib64"));
    r.push(String::from_str("/lib64"));
    r.push(String::from_str("/usr/lib"));
    r.push(String::from_str("/lib"));
    assert(views(r@) =~= linux_library_directories(arch@));
    r
}

/// The run path of the packaged libraries.
pub fn library_runpath() -> (r: &'static str)
    ensures
        r@ == "$ORIGIN:$ORIGIN/revng/analyses"@,
{
    "$ORIGIN:$ORIGIN/revng/analyses"
}

/// The run path of the packaged analyses.
pub fn analysis_runpath() -> (r: &'static str)
    ensures
        r@ == "$ORIGIN:$ORIGIN/../.."@,
{
    "$ORIGIN:$ORIGIN/../.."
}

/// The run path of the bundled system libraries.
pub fn bundled_runpath() -> (r: &'static str)
    ensures
        r@ == "$ORIGIN"@,
{
    "$ORIGIN"
}

// ---------------------------------------------------------------------------
// Directory entries
// ---------------------------------------------------------------------------

/// A directory entry: its path and whether it is a regular file.
pub struct Entry {
    pub path: String,
    pub is_file: bool,
}

/// A directory entry, as values.
pub struct EntryView {
    pub path: Seq<char>,
    pub is_file: bool,
}

/// The view of a directory entry.
pub open spec fn entry_view(e: Entry) -> EntryView {
    EntryView { path: e.path@, is_file: e.is_file }
}

/// The views of a list of entries.
pub open spec fn entry_views(v: Seq<Entry>) -> Seq<EntryView> {
    v.map_values(|e: Entry| entry_view(e))
}

/// The file name of an entry that is a shared library file, if it is one.
pub open spec fn library_entry_name(os: Os, e: EntryView) -> Option<Seq<char>> {
    match path_file_name(e.path) {
        Some(n) => if e.is_file && names_dynamic_library(os, n) {
            Some(n)
        } else {
            None
        },
        None => None,
    }
}

/// The file name of an entry that is a shared library file, if it is one.
fn library_entry(os: Os, e: &Entry) -> (r: Option<String>)
    ensures
        match r {
            Some(n) => library_entry_name(os, entry_view(*e)) == Some(n@),
            None => library_entry_name(os, entry_view(*e)) is None,
        },
{
    match file_name(e.path.as_str()) {
        Some(n) => if e.is_file && os.is_dynamic_library(n.as_str()) {
            Some(n)
        } else {
            None
        },
        None => None,
    }
}

/// The entries that are shared library files, in order.
pub open spec fn library_paths(os: Os, entries: Seq<EntryView>) -> Seq<Seq<char>>
    decreases entries.len(),
{
    if entries.len() == 0 {
        seq![]
    } else {
        let rest = library_paths(os, entries.drop_last());
        if library_entry_name(os, entries.last()) is Some {
            rest.push(entries.last().path)
        } else {
            rest
        }
    }
}

/// The file names of the entries, as a set.
pub open spec fn entry_names(paths: Seq<Seq<char>>) -> Set<Seq<char>> {
    Set::new(
        |n: Seq<char>| exists|i: int| 0 <= i < paths.len() && path_file_name(paths[i]) == Some(n),
    )
}

// ---------------------------------------------------------------------------
// Merging the library trees
// ---------------------------------------------------------------------------

/// The progress of merging the library trees: the libraries placed so far
/// (name and source), the copies to make, and the collision that stopped
/// the merge, if one did.
pub struct MergeView {
    pub placed: Seq<(Seq<char>, Seq<char>)>,
    pub copies: Seq<(Seq<char>, Seq<char>)>,
    pub collision: Option<(Seq<char>, Seq<char>, Seq<char>)>,
}

/// Where a name was placed, if it was.
pub open spec fn placed_index(placed: Seq<(Seq<char>, Seq<char>)>, name: Seq<char>) -> Option<int>
    decreases placed.len(),
{
    if placed.len() == 0 {
        None
    } else if placed.last().0 == name {
        Some(placed.len() - 1)
    } else {
        placed_index(placed.drop_last(), name)
    }
}

/// One more entry merged into `out_lib`.
pub open spec fn merge_step(st: MergeView, os: Os, out_lib: Seq<char>, e: EntryView) -> MergeView {
    if st.collision is Some {
        st
    } else {
        match library_entry_name(os, e) {
            None => st,
            Some(n) => match placed_index(st.placed, n) {
                Some(k) => MergeView { collision: Some((n, st.placed[k].1, e.path)), ..st },
                None => MergeView {
                    placed: st.placed.push((n, e.path)),
                    copies: st.copies.push((e.path, path_join(out_lib, n))),
                    collision: None,
                },
            },
        }
    }
}

/// The entries merged in order.
pub open spec fn merge(st: MergeView, os: Os, out_lib: Seq<char>, entries: Seq<EntryView>) -> MergeView
    decreases entries.len(),
{
    if entries.len() == 0 {
        st
    } else {
        merge_step(merge(st, os, out_lib, entries.drop_last()), os, out_lib, entries.last())
    }
}

/// No two placed libraries share a name.
pub open spec fn distinct_names(placed: Seq<(Seq<char>, Seq<char>)>) -> bool {
    forall|i: int, j: int| 0 <= i < j < placed.len() ==> placed[i].0 != placed[j].0
}

/// The copies of the analysis libraries, and how many there are.
pub open spec fn analysis_copies(os: Os, out_analyses: Seq<char>, entries: Seq<EntryView>) -> Seq<
    (Seq<char>, Seq<char>),
>
    decreases entries.len(),
{
    if entries.len() == 0 {
        seq![]
    } else {
        let rest = analysis_copies(os, out_analyses, entries.drop_last());
        match library_entry_name(os, entries.last()) {
            Some(n) => rest.push((entries.last().path, path_join(out_analyses, n))),
            None => rest,
        }
    }
}

/// The copies that fill the package's library directories, and the
/// outcome: the number of libraries and of analyses, or the collision that
/// stops the merge (after the copies made before it).
pub struct LibraryPlan {
    pub copies: Vec<(String, String)>,
    pub outcome: Result<(usize, usize), Error>,
}

/// The views of a list of copies.
pub open spec fn copy_views(v: Seq<(String, String)>) -> Seq<(Seq<char>, Seq<char>)> {
    v.map_values(|c: (String, String)| (c.0@, c.1@))
}

proof fn lemma_placed_index(placed: Seq<(Seq<char>, Seq<char>)>, name: Seq<char>)
    ensures
        match placed_index(placed, name) {
            Some(k) => 0 <= k < placed.len() && placed[k].0 == name,
            None => forall|i: int| 0 <= i < placed.len() ==> placed[i].0 != name,
        },
    decreases placed.len(),
{
    if placed.len() > 0 {
        lemma_placed_index(placed.drop_last(), name);
        if placed.last().0 != name {
            assert forall|i: int| 0 <= i < placed.len() - 1 implies placed[i] == placed.drop_last()[i] by {}
        }
    }
}

proof fn lemma_merge_distinct(st: MergeView, os: Os, out_lib: Seq<char>, entries: Seq<EntryView>)
    requires
        distinct_names(st.placed),
    ensures
        distinct_names(merge(st, os, out_lib, entries).placed),
        merge(st, os, out_lib, entries).placed.len() == merge(st, os, out_lib, entries).copies.len()
            - st.copies.len() + st.placed.len(),
    decreases entries.len(),
{
    if entries.len() > 0 {
        lemma_merge_distinct(st, os, out_lib, entries.drop_last());
        let m = merge(st, os, out_lib, entries.drop_last());
        match library_entry_name(os, entries.last()) {
            Some(n) => {
                lemma_placed_index(m.placed, n);
            },
            None => {},
        }
    }
}

/// The state of a merge, as values.
pub open spec fn merge_state_view(
    placed: Seq<(String, String)>,
    copies: Seq<(String, String)>,
    collision: Option<(Seq<char>, Seq<char>, Seq<char>)>,
) -> MergeView {
    MergeView { placed: copy_views(placed), copies: copy_views(copies), collision }
}

/// Merges one library tree's entries into the placed libraries.
fn merge_tree(
    os: Os,
    out_lib: &str,
    entries: &Vec<Entry>,
    placed: &mut Vec<(String, String)>,
    copies: &mut Vec<(String, String)>,
) -> (r: Option<Error>)
    ensures
        ({
            let m = merge(
                merge_state_view(old(placed)@, old(copies)@, None),
                os,
                out_lib@,
                entry_views(entries@),
            );
            &&& copy_views(final(placed)@) == m.placed
            &&& copy_views(final(copies)@) == m.copies
            &&& match r {
                None => m.collision is None,
                Some(e) => m.collision matches Some((n, a, b)) && (e matches Error::Collision {
                    name,
                    first,
                    second,
                } && name@ == n && first@ == a && second@ == b),
            }
        }),
{
    let ghost start = merge_state_view(placed@, copies@, None);
    assert(start == merge_state_view(old(placed)@, old(copies)@, None));
    let ghost all = entry_views(entries@);
    let n = entries.len();
    for i in 0..n
        invariant
            n == entries.len(),
            all == entry_views(entries@),
            start == merge_state_view(old(placed)@, old(copies)@, None),
            merge(start, os, out_lib@, all.take(i as int)) == merge_state_view(placed@, copies@, None),
    {
        let ghost t = all.take(i + 1);
        assert(t.drop_last() =~= all.take(i as int));
        assert(t.last() == entry_view(entries@[i as int]));
        let ghost cur = merge_state_view(placed@, copies@, None);
        match library_entry(os, &entries[i]) {
            None => {},
            Some(name) => {
                let mut found: Option<usize> = None;
                let m = placed.len();
                let mut k: usize = m;
                assert(cur.placed.take(m as int) =~= cur.placed);
                while k > 0
                    invariant_except_break
                        found is None,
                    invariant
                        k <= m,
                        m == placed.len(),
                        cur == merge_state_view(placed@, copies@, None),
                        placed_index(cur.placed, name@) == placed_index(cur.placed.take(k as int), name@),
                    ensures
                        m == placed.len(),
                        cur == merge_state_view(placed@, copies@, None),
                        found matches Some(j) ==> j < m && placed_index(cur.placed, name@) == Some(j as int),
                        found is None ==> k == 0,
                        placed_index(cur.placed, name@) == placed_index(cur.placed.take(k as int), name@),
                    decreases k,
                {
                    let ghost pk = cur.placed.take(k as int);
                    assert(pk.last() == cur.placed[k - 1]);
                    assert(pk.drop_last() =~= cur.placed.take(k - 1));
                    assert(cur.placed[k - 1].0 == placed@[k - 1].0@);
                    if str_eq(placed[k - 1].0.as_str(), name.as_str()) {
                        found = Some(k - 1);
                        break;
                    }
                    k = k - 1;
                }
                proof {
                    if found is None {
                        assert(cur.placed.take(k as int) =~= Seq::<(Seq<char>, Seq<char>)>::empty());
                    }
                }
                match found {
                    Some(j) => {
                        assert(placed_index(cur.placed, name@) == Some(j as int));
                        assert(cur.placed[j as int].1 == placed@[j as int].1@);
                        let e = Error::Collision {
                            name,
                            first: placed[j].1.clone(),
                            second: entries[i].path.clone(),
                        };
                        proof {
                            assert(cur.collision is None);
                            assert(merge(start, os, out_lib@, t) == merge_step(
                                cur,
                                os,
                                out_lib@,
                                t.last(),
                            ));
                            assert(merge(start, os, out_lib@, t).collision is Some);
                            lemma_merge_sticks(start, os, out_lib@, all, i + 1);
                        }
                        return Some(e);
                    },
                    None => {
                        assert(placed_index(cur.placed, name@) is None);
                        let src = entries[i].path.clone();
                        let dest = join(out_lib, name.as_str());
                        let ghost pv = (name@, src@);
                        let ghost cv = (src@, dest@);
                        let ghost p0 = placed@;
                        let ghost c0 = copies@;
                        placed.push((name, src.clone()));
                        copies.push((src, dest));
                        assert(copy_views(placed@) =~= copy_views(p0).push(pv));
                        assert(copy_views(copies@) =~= copy_views(c0).push(cv));
                    },
                }
            },
        }
        assert(merge(start, os, out_lib@, t) == merge_state_view(placed@, copies@, None));
    }
    assert(all.take(n as int) =~= all);
    None
}

/// Once a merge has stopped at a collision, more entries change nothing.
proof fn lemma_merge_sticks(st: MergeView, os: Os, out_lib: Seq<char>, all: Seq<EntryView>, k: int)
    requires
        0 <= k <= all.len(),
        merge(st, os, out_lib, all.take(k)).collision is Some,
    ensures
        merge(st, os, out_lib, all) == merge(st, os, out_lib, all.take(k)),
    decreases all.len(),
{
    if all.len() == k {
        assert(all.take(k) =~= all);
    } else {
        assert(all.drop_last().take(k) =~= all.take(k));
        lemma_merge_sticks(st, os, out_lib, all.drop_last(), k);
    }
}

/// The library trees merged: the SDK's, then LLVM's.
pub open spec fn merged(os: Os, out_lib: Seq<char>, sdk: Seq<EntryView>, llvm: Seq<EntryView>) -> MergeView {
    merge(
        merge(MergeView { placed: seq![], copies: seq![], collision: None }, os, out_lib, sdk),
        os,
        out_lib,
        llvm,
    )
}

/// The file names of the shared library files among the entries, in order.
pub open spec fn library_names(os: Os, entries: Seq<EntryView>) -> Seq<Seq<char>>
    decreases entries.len(),
{
    if entries.len() == 0 {
        seq![]
    } else {
        let rest = library_names(os, entries.drop_last());
        match library_entry_name(os, entries.last()) {
            Some(n) => rest.push(n),
            None => rest,
        }
    }
}

proof fn lemma_merge_concat(st: MergeView, os: Os, out_lib: Seq<char>, a: Seq<EntryView>, b: Seq<EntryView>)
    ensures
        merge(merge(st, os, out_lib, a), os, out_lib, b) == merge(st, os, out_lib, a + b),
    decreases b.len(),
{
    if b.len() == 0 {
        assert(a + b =~= a);
    } else {
        lemma_merge_concat(st, os, out_lib, a, b.drop_last());
        assert((a + b).drop_last() =~= a + b.drop_last());
        assert((a + b).last() == b.last());
    }
}

proof fn lemma_merge_names(os: Os, out_lib: Seq<char>, entries: Seq<EntryView>)
    ensures
        ({
            let m = merge(MergeView { placed: seq![], copies: seq![], collision: None }, os, out_lib, entries);
            let names = library_names(os, entries);
            &&& m.collision is None <==> names.no_duplicates()
            &&& m.collision is None ==> m.placed.len() == names.len() && forall|i: int|
                0 <= i < names.len() ==> #[trigger] m.placed[i].0 == names[i]
            &&& m.collision matches Some((n, _, _)) ==> exists|i: int, j: int|
                0 <= i < j < names.len() && names[i] == n && names[j] == n
        }),
    decreases entries.len(),
{
    if entries.len() > 0 {
        let empty = MergeView { placed: seq![], copies: seq![], collision: None };
        let prior = entries.drop_last();
        lemma_merge_names(os, out_lib, prior);
        let m0 = merge(empty, os, out_lib, prior);
        let names0 = library_names(os, prior);
        let names = library_names(os, entries);
        match library_entry_name(os, entries.last()) {
            None => {},
            Some(n) => {
                assert(names == names0.push(n));
                assert forall|i: int| 0 <= i < names0.len() implies names[i] == names0[i] by {}
                if m0.collision is Some {
                    assert(!names.no_duplicates()) by {
                        if !names0.no_duplicates() {
                            let (i, j) = choose|i: int, j: int|
                                0 <= i < names0.len() && 0 <= j < names0.len() && i != j && names0[i]
                                    == names0[j];
                            assert(names[i] == names[j]);
                        }
                    }
                    let (cn, _, _) = m0.collision.unwrap();
                    let (i, j) = choose|i: int, j: int|
                        0 <= i < j < names0.len() && names0[i] == cn && names0[j] == cn;
                    assert(names[i] == cn && names[j] == cn);
                } else {
                    lemma_placed_index(m0.placed, n);
                    match placed_index(m0.placed, n) {
                        Some(k) => {
                            assert(m0.placed[k].0 == names0[k]);
                            assert(names[k] == n && names[names0.len() as int] == n);
                        },
                        None => {
                            let m = merge(empty, os, out_lib, entries);
                            assert(m.placed == m0.placed.push((n, entries.last().path)));
                            assert forall|i: int| 0 <= i < names.len() implies #[trigger] m.placed[i].0
                                == names[i] by {
                                if i < names0.len() {
                                    assert(m.placed[i] == m0.placed[i]);
                                }
                            }
                            assert forall|i: int, j: int|
                                0 <= i < names.len() && 0 <= j < names.len() && i != j implies names[i]
                                != names[j] by {
                                if i < names0.len() && j < names0.len() {
                                } else if i < names0.len() {
                                    assert(m0.placed[i].0 == names0[i]);
                                } else {
                                    assert(m0.placed[j].0 == names0[j]);
                                }
                            }
                        },
                    }
                }
            },
        }
    }
}

/// The entries come in path order.
pub open spec fn sorted_by_path(entries: Seq<EntryView>) -> bool {
    forall|i: int, j: int| 0 <= i < j < entries.len() ==> lex_le(entries[i].path, entries[j].path)
}

/// A directory's entries in path order (`slice::sort` on their paths): the
/// same entries, each as often.
pub fn sort_entries(entries: &Vec<Entry>) -> (r: Vec<Entry>)
    ensures
        sorted_by_path(entry_views(r@)),
        entry_views(r@).to_multiset() == entry_views(entries@).to_multiset(),
{
    let ghost all = entry_views(entries@);
    let mut out: Vec<Entry> = Vec::new();
    let n = entries.len();
    assert(all.take(0) =~= Seq::<EntryView>::empty());
    assert(entry_views(out@) =~= Seq::<EntryView>::empty());
    for i in 0..n
        invariant
            n == entries.len(),
            all == entry_views(entries@),
            sorted_by_path(entry_views(out@)),
            entry_views(out@).to_multiset() == all.take(i as int).to_multiset(),
    {
        let x = Entry { path: entries[i].path.clone(), is_file: entries[i].is_file };
        assert(entry_view(x) == all[i as int]);
        let xc = chars_of(x.path.as_str());
        let mut p: usize = 0;
        while p < out.len()
            invariant
                p <= out.len(),
                xc@ == x.path@,
                forall|j: int| 0 <= j < p ==> lex_le(#[trigger] entry_views(out@)[j].path, x.path@),
            ensures
                p <= out.len(),
                forall|j: int| 0 <= j < p ==> lex_le(#[trigger] entry_views(out@)[j].path, x.path@),
                p < out.len() ==> !lex_le(entry_views(out@)[p as int].path, x.path@),
            decreases out.len() - p,
        {
            let oc = chars_of(out[p].path.as_str());
            assert(oc@ == entry_views(out@)[p as int].path);
            if !lex_le_exec(&oc, &xc) {
                break;
            }
            p = p + 1;
        }
        let ghost before = entry_views(out@);
        let ghost xv = entry_view(x);
        out.insert(p, x);
        proof {
            if p < before.len() {
                lemma_lex_total(before[p as int].path, xv.path);
            }
            assert(entry_views(out@) =~= before.insert(p as int, xv));
            assert(all.take(i + 1) =~= all.take(i as int).push(xv));
            vstd::seq_lib::to_multiset_insert(before, p as int, xv);
            vstd::seq_lib::to_multiset_build(all.take(i as int), xv);
            let o = entry_views(out@);
            assert forall|a: int, b: int| 0 <= a < b < o.len() implies lex_le(o[a].path, o[b].path) by {
                if b < p {
                } else if a < p && b == p {
                } else if a < p {
                    assert(lex_le(before[a].path, before[b - 1].path));
                } else if a == p {
                    if b - 1 > p {
                        assert(lex_le(before[p as int].path, before[b - 1].path));
                        lemma_lex_transitive(xv.path, before[p as int].path, before[b - 1].path);
                    }
                } else {
                    assert(lex_le(before[a - 1].path, before[b - 1].path));
                }
            }
        }
    }
    assert(all.take(n as int) =~= all);
    out
}

/// Whether the entries come in path order.
pub fn in_path_order(entries: &Vec<Entry>) -> (r: bool)
    ensures
        r == sorted_by_path(entry_views(entries@)),
{
    let ghost all = entry_views(entries@);
    let n = entries.len();
    for i in 0..n
        invariant
            n == entries.len(),
            all == entry_views(entries@),
            forall|a: int, b: int| 0 <= a < i && a < b < n ==> lex_le(all[a].path, all[b].path),
    {
        let left = chars_of(entries[i].path.as_str());
        for j in i + 1..n
            invariant
                n == entries.len(),
                all == entry_views(entries@),
                i < n,
                left@ == all[i as int].path,
                forall|a: int, b: int| 0 <= a < i && a < b < n ==> lex_le(all[a].path, all[b].path),
                forall|b: int| i < b < j ==> lex_le(all[i as int].path, all[b].path),
        {
            let right = chars_of(entries[j].path.as_str());
            assert(right@ == all[j as int].path);
            if !lex_le_exec(&left, &right) {
                assert(!lex_le(all[i as int].path, all[j as int].path));
                return false;
            }
        }
    }
    true
}

/// A merge that meets no collision places every library of the entries
/// after what was placed before, and none of them was placed before.
proof fn lemma_merge_grows(st: MergeView, os: Os, out_lib: Seq<char>, entries: Seq<EntryView>)
    requires
        st.collision is None,
        merge(st, os, out_lib, entries).collision is None,
    ensures
        merge(st, os, out_lib, entries).placed.len() >= st.placed.len(),
        forall|i: int|
            0 <= i < st.placed.len() ==> #[trigger] merge(st, os, out_lib, entries).placed[i] == st.placed[i],
        forall|j: int|
            0 <= j < entries.len() && (#[trigger] library_entry_name(os, entries[j])) is Some ==> placed_index(
                st.placed,
                library_entry_name(os, entries[j])->0,
            ) is None,
    decreases entries.len(),
{
    if entries.len() > 0 {
        let prior = entries.drop_last();
        let m0 = merge(st, os, out_lib, prior);
        if m0.collision is Some {
            lemma_merge_collision_stays(m0, os, out_lib, seq![entries.last()]);
            assert(merge(m0, os, out_lib, seq![entries.last()]) == merge(st, os, out_lib, entries)) by {
                assert(seq![entries.last()].drop_last() =~= Seq::<EntryView>::empty());
            }
        }
        lemma_merge_grows(st, os, out_lib, prior);
        assert forall|j: int|
            0 <= j < entries.len() && (#[trigger] library_entry_name(os, entries[j])) is Some implies placed_index(
            st.placed,
            library_entry_name(os, entries[j])->0,
        ) is None by {
            if j < prior.len() {
                assert(entries[j] == prior[j]);
            } else {
                let n = library_entry_name(os, entries[j])->0;
                lemma_placed_index(m0.placed, n);
                lemma_placed_index(st.placed, n);
                if placed_index(st.placed, n) is Some {
                    let k = placed_index(st.placed, n)->0;
                    assert(m0.placed[k] == st.placed[k]);
                }
            }
        }
    }
}

/// Where a merge that starts without a collision stops: at an entry (its
/// index) whose library name was placed before it; no library entry before
/// it has a name placed before the merge began.
proof fn lemma_merge_stop(st: MergeView, os: Os, out_lib: Seq<char>, entries: Seq<EntryView>)
    requires
        st.collision is None,
        merge(st, os, out_lib, entries).collision is Some,
    ensures
        exists|k: int|
            0 <= k < entries.len() && #[trigger] entries[k].path == merge(st, os, out_lib, entries).collision.unwrap().2
                && library_entry_name(os, entries[k]) == Some(merge(st, os, out_lib, entries).collision.unwrap().0)
                && merge(st, os, out_lib, entries.take(k)).collision is None && placed_index(
                merge(st, os, out_lib, entries.take(k)).placed,
                merge(st, os, out_lib, entries).collision.unwrap().0,
            ) is Some && forall|j: int|
                0 <= j < k && (#[trigger] library_entry_name(os, entries[j])) is Some ==> placed_index(
                    st.placed,
                    library_entry_name(os, entries[j])->0,
                ) is None,
    decreases entries.len(),
{
    let prior = entries.drop_last();
    let m0 = merge(st, os, out_lib, prior);
    if m0.collision is Some {
        lemma_merge_stop(st, os, out_lib, prior);
        let k = choose|k: int|
            0 <= k < prior.len() && #[trigger] prior[k].path == m0.collision.unwrap().2 && library_entry_name(
                os,
                prior[k],
            ) == Some(m0.collision.unwrap().0) && merge(st, os, out_lib, prior.take(k)).collision is None
                && placed_index(merge(st, os, out_lib, prior.take(k)).placed, m0.collision.unwrap().0) is Some
                && forall|j: int|
                0 <= j < k && (#[trigger] library_entry_name(os, prior[j])) is Some ==> placed_index(
                    st.placed,
                    library_entry_name(os, prior[j])->0,
                ) is None;
        assert(entries[k] == prior[k]);
        assert(prior.take(k) =~= entries.take(k));
        assert forall|j: int|
            0 <= j < k && (#[trigger] library_entry_name(os, entries[j])) is Some implies placed_index(
            st.placed,
            library_entry_name(os, entries[j])->0,
        ) is None by {
            assert(entries[j] == prior[j]);
        }
    } else {
        lemma_merge_grows(st, os, out_lib, prior);
        let k = entries.len() - 1;
        assert forall|j: int|
            0 <= j < k && (#[trigger] library_entry_name(os, entries[j])) is Some implies placed_index(
            st.placed,
            library_entry_name(os, entries[j])->0,
        ) is None by {
            assert(entries[j] == prior[j]);
        }
        assert(entries[k].path == merge(st, os, out_lib, entries).collision.unwrap().2);
        assert(entries.take(k) =~= prior);
    }
}

proof fn lemma_names_concat(os: Os, a: Seq<EntryView>, b: Seq<EntryView>)
    ensures
        library_names(os, a + b) == library_names(os, a) + library_names(os, b),
    decreases b.len(),
{
    if b.len() == 0 {
        assert(a + b =~= a);
        assert(library_names(os, a) + library_names(os, b) =~= library_names(os, a));
    } else {
        lemma_names_concat(os, a, b.drop_last());
        assert((a + b).drop_last() =~= a + b.drop_last());
        assert((a + b).last() == b.last());
        match library_entry_name(os, b.last()) {
            Some(n) => {
                assert(library_names(os, a) + library_names(os, b.drop_last()).push(n) =~= (library_names(
                    os,
                    a,
                ) + library_names(os, b.drop_last())).push(n));
            },
            None => {},
        }
    }
}

/// When the library trees come in path order and neither repeats a name
/// (as no directory does), a collision names a library of the SDK's tree,
/// found at the first of LLVM's library entries, in path order, that shares
/// a name with the SDK's: every other such entry comes after it. Within one
/// directory path order is file name order, so this is the least common
/// name.
pub proof fn collision_is_the_first_in_path_order(
    os: Os,
    out_lib: Seq<char>,
    sdk: Seq<EntryView>,
    llvm: Seq<EntryView>,
)
    requires
        sorted_by_path(llvm),
        library_names(os, sdk).no_duplicates(),
        library_names(os, llvm).no_duplicates(),
    ensures
        merged(os, out_lib, sdk, llvm).collision matches Some((n, first, second)) ==> {
            &&& library_names(os, sdk).contains(n)
            &&& exists|k: int|
                0 <= k < llvm.len() && #[trigger] llvm[k].path == second && library_entry_name(os, llvm[k])
                    == Some(n)
            &&& forall|j: int|
                0 <= j < llvm.len() && (#[trigger] library_entry_name(os, llvm[j])) is Some
                    && library_names(os, sdk).contains(library_entry_name(os, llvm[j])->0) ==> lex_le(
                    second,
                    llvm[j].path,
                )
        },
{
    let empty = MergeView { placed: seq![], copies: seq![], collision: None };
    let st = merge(empty, os, out_lib, sdk);
    lemma_merge_names(os, out_lib, sdk);
    let m = merged(os, out_lib, sdk, llvm);
    if m.collision is Some {
        assert(st.collision is None);
        lemma_merge_stop(st, os, out_lib, llvm);
        let (n, first, second) = m.collision.unwrap();
        let k = choose|k: int|
            0 <= k < llvm.len() && #[trigger] llvm[k].path == second && library_entry_name(os, llvm[k])
                == Some(n) && merge(st, os, out_lib, llvm.take(k)).collision is None && placed_index(
                merge(st, os, out_lib, llvm.take(k)).placed,
                n,
            ) is Some && forall|j: int|
                0 <= j < k && (#[trigger] library_entry_name(os, llvm[j])) is Some ==> placed_index(
                    st.placed,
                    library_entry_name(os, llvm[j])->0,
                ) is None;
        let sn = library_names(os, sdk);
        assert forall|j: int|
            0 <= j < llvm.len() && (#[trigger] library_entry_name(os, llvm[j])) is Some && sn.contains(
                library_entry_name(os, llvm[j])->0,
            ) implies lex_le(second, llvm[j].path) by {
            let mm = library_entry_name(os, llvm[j])->0;
            if j < k {
                let i = choose|i: int| 0 <= i < sn.len() && sn[i] == mm;
                assert(st.placed[i].0 == sn[i]);
                lemma_placed_index(st.placed, mm);
            } else if j == k {
                lemma_lex_reflexive(second);
            }
        }
        // The colliding name was placed by the SDK's tree: an earlier LLVM
        // entry would repeat a name of LLVM's tree.
        let pre = llvm.take(k);
        let mk = merge(st, os, out_lib, pre);
        lemma_merge_concat(empty, os, out_lib, sdk, pre);
        lemma_merge_names(os, out_lib, sdk + pre);
        lemma_names_concat(os, sdk, pre);
        lemma_placed_index(mk.placed, n);
        let i = placed_index(mk.placed, n)->0;
        let names = library_names(os, sdk + pre);
        assert(mk == merge(empty, os, out_lib, sdk + pre));
        assert(mk.placed[i].0 == n);
        assert(names[i] == n);
        if i >= sn.len() {
            let lp = library_names(os, pre);
            assert(lp[i - sn.len()] == n);
            let rest = llvm.skip(k);
            assert(pre + rest =~= llvm);
            lemma_names_concat(os, pre, rest);
            assert(rest.take(1).drop_last() =~= Seq::<EntryView>::empty());
            assert(rest.take(1) =~= seq![llvm[k]]);
            assert(rest.take(1) + rest.skip(1) =~= rest);
            lemma_names_concat(os, rest.take(1), rest.skip(1));
            let ln = library_names(os, llvm);
            assert(rest.take(1).last() == llvm[k]);
            assert(library_names(os, rest.take(1).drop_last()) =~= Seq::<Seq<char>>::empty());
            assert(library_names(os, rest.take(1)) =~= seq![n]);
            assert(ln[i - sn.len()] == n);
            assert(ln[lp.len() as int] == n);
        }
    }
}

/// When LLVM's library entries are those of one directory (each the
/// directory's path, a separator and its file name) and come in path order,
/// and neither tree repeats a name, the collision reported is the least
/// name common to the two trees.
pub proof fn collision_is_the_least_common_name(
    os: Os,
    out_lib: Seq<char>,
    sdk: Seq<EntryView>,
    llvm: Seq<EntryView>,
    dir: Seq<char>,
)
    requires
        sorted_by_path(llvm),
        library_names(os, sdk).no_duplicates(),
        library_names(os, llvm).no_duplicates(),
        forall|j: int|
            0 <= j < llvm.len() && (#[trigger] library_entry_name(os, llvm[j])) is Some ==> llvm[j].path
                == dir + library_entry_name(os, llvm[j])->0,
    ensures
        merged(os, out_lib, sdk, llvm).collision matches Some((n, first, second)) ==> {
            &&& library_names(os, sdk).contains(n)
            &&& library_names(os, llvm).contains(n)
            &&& forall|j: int|
                0 <= j < llvm.len() && (#[trigger] library_entry_name(os, llvm[j])) is Some
                    && library_names(os, sdk).contains(library_entry_name(os, llvm[j])->0) ==> lex_le(
                    n,
                    library_entry_name(os, llvm[j])->0,
                )
        },
{
    collision_is_the_first_in_path_order(os, out_lib, sdk, llvm);
    let m = merged(os, out_lib, sdk, llvm);
    if m.collision is Some {
        let (n, first, second) = m.collision.unwrap();
        let k = choose|k: int|
            0 <= k < llvm.len() && #[trigger] llvm[k].path == second && library_entry_name(os, llvm[k])
                == Some(n);
        assert(second == dir + n);
        lemma_library_names_has(os, llvm, k);
        assert forall|j: int|
            0 <= j < llvm.len() && (#[trigger] library_entry_name(os, llvm[j])) is Some
                && library_names(os, sdk).contains(library_entry_name(os, llvm[j])->0) implies lex_le(
                n,
                library_entry_name(os, llvm[j])->0,
            ) by {
            lemma_lex_common_prefix(dir, n, library_entry_name(os, llvm[j])->0);
        }
    }
}

/// An entry that is a shared library file gives its name to the tree's names.
proof fn lemma_library_names_has(os: Os, entries: Seq<EntryView>, k: int)
    requires
        0 <= k < entries.len(),
        library_entry_name(os, entries[k]) is Some,
    ensures
        library_names(os, entries).contains(library_entry_name(os, entries[k])->0),
    decreases entries.len(),
{
    let names = library_names(os, entries);
    if k == entries.len() - 1 {
        assert(names.last() == library_entry_name(os, entries[k])->0);
        assert(names[names.len() - 1] == library_entry_name(os, entries[k])->0);
    } else {
        lemma_library_names_has(os, entries.drop_last(), k);
        assert(entries.drop_last()[k] == entries[k]);
        let rest = library_names(os, entries.drop_last());
        let i = choose|i: int| 0 <= i < rest.len() && rest[i] == library_entry_name(os, entries[k])->0;
        assert(names[i] == rest[i]);
    }
}

/// Merging the SDK's and LLVM's library trees stops at a collision exactly
/// when some shared library file name occurs twice among their entries; the
/// name it reports is such a name. Without a collision, every library is
/// placed once, in the order the entries come.
pub proof fn merge_collides_iff_a_name_repeats(
    os: Os,
    out_lib: Seq<char>,
    sdk: Seq<EntryView>,
    llvm: Seq<EntryView>,
)
    ensures
        ({
            let m = merged(os, out_lib, sdk, llvm);
            let names = library_names(os, sdk + llvm);
            &&& m.collision is None <==> names.no_duplicates()
            &&& m.collision is None ==> m.placed.len() == names.len() && forall|i: int|
                0 <= i < names.len() ==> #[trigger] m.placed[i].0 == names[i]
            &&& m.collision matches Some((n, _, _)) ==> exists|i: int, j: int|
                0 <= i < j < names.len() && names[i] == n && names[j] == n
        }),
{
    let empty = MergeView { placed: seq![], copies: seq![], collision: None };
    lemma_merge_concat(empty, os, out_lib, sdk, llvm);
    lemma_merge_names(os, out_lib, sdk + llvm);
}

// ---------------------------------------------------------------------------
// The packager
// ---------------------------------------------------------------------------

/// What a packager holds.
pub struct PackagerView {
    pub cache: Seq<char>,
    pub binary: Seq<char>,
    pub out: Seq<char>,
    pub name: Seq<char>,
    pub strip: bool,
    pub os: Os,
}

/// Assembles a package from a provisioned cache key directory and a
/// consumer binary.
pub struct Packager {
    cache: String,
    binary: String,
    out: String,
    name: String,
    strip: bool,
    os: Os,
}

impl View for Packager {
    type V = PackagerView;

    closed spec fn view(&self) -> PackagerView {
        PackagerView {
            cache: self.cache@,
            binary: self.binary@,
            out: self.out@,
            name: self.name@,
            strip: self.strip,
            os: self.os,
        }
    }
}

/// The inputs a package is made from, in the order they are checked.
pub open spec fn package_inputs(p: PackagerView) -> Seq<Seq<char>> {
    seq![
        p.binary,
        path_join(p.cache, "sdk/lib"@),
        path_join(p.cache, "sdk/lib/revng/analyses"@),
        path_join(p.cache, "llvm/lib"@),
        path_join(p.cache, "sdk/share/revng"@),
    ]
}

/// The directories of the package.
pub open spec fn package_directories(p: PackagerView) -> Seq<Seq<char>> {
    seq![
        path_join(p.out, "bin"@),
        path_join(p.out, "lib"@),
        path_join(p.out, "lib/revng/analyses"@),
        path_join(p.out, "share/revng"@),
    ]
}

/// The copies of a library plan, and its outcome.
pub open spec fn plan_of(
    p: PackagerView,
    sdk: Seq<EntryView>,
    llvm: Seq<EntryView>,
    analyses: Seq<EntryView>,
) -> (Seq<(Seq<char>, Seq<char>)>, Option<(Seq<char>, Seq<char>, Seq<char>)>, nat, nat) {
    let m = merged(p.os, path_join(p.out, "lib"@), sdk, llvm);
    if m.collision is Some {
        (m.copies, m.collision, 0, 0)
    } else {
        let a = analysis_copies(p.os, path_join(p.out, "lib/revng/analyses"@), analyses);
        (m.copies + a, None, m.placed.len(), a.len())
    }
}

proof fn lemma_analysis_count(os: Os, out: Seq<char>, entries: Seq<EntryView>)
    ensures
        analysis_copies(os, out, entries).len() == library_names(os, entries).len(),
    decreases entries.len(),
{
    if entries.len() > 0 {
        lemma_analysis_count(os, out, entries.drop_last());
    }
}

/// The counts a package reports are those of its shared library files:
/// without a collision, the libraries are the shared library files of the
/// SDK's and LLVM's library trees, each once, and the analyses are those of
/// the SDK's analyses directory.
pub proof fn package_counts_are_the_library_files(
    p: PackagerView,
    sdk: Seq<EntryView>,
    llvm: Seq<EntryView>,
    analyses: Seq<EntryView>,
)
    ensures
        plan_of(p, sdk, llvm, analyses).1 is None ==> plan_of(p, sdk, llvm, analyses).2 == library_names(
            p.os,
            sdk + llvm,
        ).len() && library_names(p.os, sdk + llvm).no_duplicates() && plan_of(p, sdk, llvm, analyses).3
            == library_names(p.os, analyses).len(),
{
    merge_collides_iff_a_name_repeats(p.os, path_join(p.out, "lib"@), sdk, llvm);
    lemma_analysis_count(p.os, path_join(p.out, "lib/revng/analyses"@), analyses);
}

impl Packager {
    /// A packager for `binary` (its file name names the packaged binary),
    /// the cache key directory `cache`, and the output directory `out`, on
    /// `os`; it strips the shipped binaries on Linux. A binary path without
    /// a file name is `MissingInput`.
    pub fn new(cache: String, binary: String, out: String, os: Os) -> (r: Result<Packager, Error>)
        ensures
            match r {
                Ok(p) => path_file_name(binary@) == Some(p@.name) && p@ == (PackagerView {
                    cache: cache@,
                    binary: binary@,
                    out: out@,
                    name: p@.name,
                    strip: os == Os::Linux,
                    os,
                }),
                Err(e) => path_file_name(binary@) is None && (e matches Error::MissingInput(b) && b@
                    == binary@),
            },
    {
        let name = match file_name(binary.as_str()) {
            Some(n) => n,
            None => {
                return Err(Error::MissingInput(binary));
            },
        };
        let strip = match os {
            Os::Linux => true,
            Os::MacOs => false,
        };
        Ok(Packager { cache, binary, out, name, strip, os })
    }

    /// The same packager, naming the packaged binary `name`.
    pub fn with_name(self, name: String) -> (r: Packager)
        ensures
            r@ == (PackagerView { name: name@, ..self@ }),
    {
        let mut p = self;
        p.name = name;
        p
    }

    /// The same packager, stripping only when asked to and on Linux.
    pub fn with_strip(self, strip: bool) -> (r: Packager)
        ensures
            r@ == (PackagerView { strip: strip && self@.os == Os::Linux, ..self@ }),
    {
        let mut p = self;
        p.strip = strip && match p.os {
            Os::Linux => true,
            Os::MacOs => false,
        };
        p
    }

    /// The operating system packaged for.
    pub fn os(&self) -> (r: Os)
        ensures
            r == self@.os,
    {
        self.os
    }

    /// Whether the shipped binaries are stripped.
    pub fn strip(&self) -> (r: bool)
        ensures
            r == self@.strip,
    {
        self.strip
    }

    /// The cache key directory.
    pub fn cache(&self) -> (r: &str)
        ensures
            r@ == self@.cache,
    {
        self.cache.as_str()
    }

    /// The consumer binary.
    pub fn binary(&self) -> (r: &str)
        ensures
            r@ == self@.binary,
    {
        self.binary.as_str()
    }

    /// The output directory.
    pub fn out(&self) -> (r: &str)
        ensures
            r@ == self@.out,
    {
        self.out.as_str()
    }

    /// The SDK's library directory in the cache.
    pub fn sdk_lib(&self) -> (r: String)
        ensures
            r@ == path_join(self@.cache, "sdk/lib"@),
    {
        join(self.cache.as_str(), "sdk/lib")
    }

    /// The SDK's analyses in the cache.
    pub fn analyses_source(&self) -> (r: String)
        ensures
            r@ == path_join(self@.cache, "sdk/lib/revng/analyses"@),
    {
        join(self.cache.as_str(), "sdk/lib/revng/analyses")
    }

    /// LLVM's library directory in the cache.
    pub fn llvm_lib(&self) -> (r: String)
        ensures
            r@ == path_join(self@.cache, "llvm/lib"@),
    {
        join(self.cache.as_str(), "llvm/lib")
    }

    /// The SDK's shared data in the cache.
    pub fn share_source(&self) -> (r: String)
        ensures
            r@ == path_join(self@.cache, "sdk/share/revng"@),
    {
        join(self.cache.as_str(), "sdk/share/revng")
    }

    /// The package's binary directory.
    pub fn out_bin(&self) -> (r: String)
        ensures
            r@ == path_join(self@.out, "bin"@),
    {
        join(self.out.as_str(), "bin")
    }

    /// The package's library directory.
    pub fn out_lib(&self) -> (r: String)
        ensures
            r@ == path_join(self@.out, "lib"@),
    {
        join(self.out.as_str(), "lib")
    }

    /// The package's analyses directory.
    pub fn out_analyses(&self) -> (r: String)
        ensures
            r@ == path_join(self@.out, "lib/revng/analyses"@),
    {
        join(self.out.as_str(), "lib/revng/analyses")
    }

    /// The package's shared data directory.
    pub fn out_share(&self) -> (r: String)
        ensures
            r@ == path_join(self@.out, "share/revng"@),
    {
        join(self.out.as_str(), "share/revng")
    }

    /// The packaged binary.
    pub fn packaged_binary(&self) -> (r: String)
        ensures
            r@ == path_join(path_join(self@.out, "bin"@), self@.name),
    {
        join(self.out_bin().as_str(), self.name.as_str())
    }

    /// The inputs a package is made from.
    pub fn inputs(&self) -> (r: Vec<String>)
        ensures
            views(r@) == package_inputs(self@),
    {
        let mut r: Vec<String> = Vec::new();
        r.push(self.binary.clone());
        r.push(self.sdk_lib());
        r.push(self.analyses_source());
        r.push(self.llvm_lib());
        r.push(self.share_source());
        assert(views(r@) =~= package_inputs(self@));
        r
    }

    /// Checks that every input exists (`existing` holds those of `inputs`
    /// that do); the first missing one is `MissingInput`.
    pub fn validate(&self, existing: &PathSet) -> (r: Result<(), Error>)
        ensures
            match r {
                Ok(()) => first_missing(package_inputs(self@), existing@) is None,
                Err(e) => exists|p: Seq<char>|
                    first_missing(package_inputs(self@), existing@) == Some(p) && (e matches Error::MissingInput(
                        q,
                    ) && q@ == p),
            },
    {
        match find_missing(&self.inputs(), existing) {
            Some(p) => Err(Error::MissingInput(p)),
            None => Ok(()),
        }
    }

    /// The directories the package is made of.
    pub fn output_directories(&self) -> (r: Vec<String>)
        ensures
            views(r@) == package_directories(self@),
    {
        let mut r: Vec<String> = Vec::new();
        r.push(self.out_bin());
        r.push(self.out_lib());
        r.push(self.out_analyses());
        r.push(self.out_share());
        assert(views(r@) =~= package_directories(self@));
        r
    }

    /// How the package's library directories are filled from the entries of
    /// the SDK's library directory, LLVM's, and the SDK's analyses: the
    /// shared library files of the two library trees go to the package's
    /// library directory, a name in both (or twice) stopping the merge with
    /// `Collision`; then the analysis libraries go to its analyses
    /// directory. The outcome counts the libraries and the analyses. Each
    /// directory's entries come in path order, as a listing sorted by path
    /// gives them (see `collision_is_the_first_in_path_order`).
    pub fn plan_libraries(&self, sdk: &Vec<Entry>, llvm: &Vec<Entry>, analyses: &Vec<Entry>) -> (r:
        LibraryPlan)
        requires
            sorted_by_path(entry_views(sdk@)),
            sorted_by_path(entry_views(llvm@)),
            sorted_by_path(entry_views(analyses@)),
        ensures
            ({
                let (copies, collision, libraries, analysis_count) = plan_of(
                    self@,
                    entry_views(sdk@),
                    entry_views(llvm@),
                    entry_views(analyses@),
                );
                &&& copy_views(r.copies@) == copies
                &&& match r.outcome {
                    Ok((l, a)) => collision is None && l == libraries && a == analysis_count,
                    Err(e) => collision matches Some((n, x, y)) && (e matches Error::Collision {
                        name,
                        first,
                        second,
                    } && name@ == n && first@ == x && second@ == y),
                }
            }),
            r.outcome is Ok ==> distinct_names(
                merged(self@.os, path_join(self@.out, "lib"@), entry_views(sdk@), entry_views(llvm@)).placed,
            ),
    {
        let out_lib = self.out_lib();
        let mut placed: Vec<(String, String)> = Vec::new();
        let mut copies: Vec<(String, String)> = Vec::new();
        let ghost empty = MergeView { placed: seq![], copies: seq![], collision: None };
        assert(copy_views(placed@) =~= Seq::<(Seq<char>, Seq<char>)>::empty());
        assert(copy_views(copies@) =~= Seq::<(Seq<char>, Seq<char>)>::empty());
        assert(merge_state_view(placed@, copies@, None) == empty);
        if let Some(e) = merge_tree(self.os, out_lib.as_str(), sdk, &mut placed, &mut copies) {
            proof {
                let m1 = merge(empty, self.os, out_lib@, entry_views(sdk@));
                lemma_merge_collision_stays(m1, self.os, out_lib@, entry_views(llvm@));
            }
            return LibraryPlan { copies, outcome: Err(e) };
        }
        if let Some(e) = merge_tree(self.os, out_lib.as_str(), llvm, &mut placed, &mut copies) {
            return LibraryPlan { copies, outcome: Err(e) };
        }
        proof {
            lemma_merge_distinct(empty, self.os, out_lib@, entry_views(sdk@));
            let m1 = merge(empty, self.os, out_lib@, entry_views(sdk@));
            lemma_merge_distinct(m1, self.os, out_lib@, entry_views(llvm@));
        }
        let libraries = placed.len();
        let out_analyses = self.out_analyses();
        let ghost before = copy_views(copies@);
        let ghost all = entry_views(analyses@);
        let mut count: usize = 0;
        let n = analyses.len();
        for i in 0..n
            invariant
                n == analyses.len(),
                all == entry_views(analyses@),
                out_analyses@ == path_join(self@.out, "lib/revng/analyses"@),
                copy_views(copies@) == before + analysis_copies(self.os, out_analyses@, all.take(i as int)),
                count == analysis_copies(self.os, out_analyses@, all.take(i as int)).len(),
                count <= i,
        {
            let ghost t = all.take(i + 1);
            assert(t.drop_last() =~= all.take(i as int));
            assert(t.last() == entry_view(analyses@[i as int]));
            match library_entry(self.os, &analyses[i]) {
                Some(name) => {
                    let ghost c0 = copies@;
                    let dest = join(out_analyses.as_str(), name.as_str());
                    copies.push((analyses[i].path.clone(), dest));
                    assert(copy_views(copies@) =~= copy_views(c0).push(
                        (analyses@[i as int].path@, path_join(out_analyses@, name@)),
                    ));
                    count = count + 1;
                },
                None => {},
            }
        }
        assert(all.take(n as int) =~= all);
        LibraryPlan { copies, outcome: Ok((libraries, count)) }
    }
}

proof fn lemma_merge_collision_stays(st: MergeView, os: Os, out_lib: Seq<char>, entries: Seq<EntryView>)
    requires
        st.collision is Some,
    ensures
        merge(st, os, out_lib, entries) == st,
    decreases entries.len(),
{
    if entries.len() > 0 {
        lemma_merge_collision_stays(st, os, out_lib, entries.drop_last());
    }
}

// ---------------------------------------------------------------------------
// What the package holds, and what its objects need
// ---------------------------------------------------------------------------

/// The first soname of `needed` that neither the package nor the system
/// provides.
pub open spec fn first_escape(needed: Seq<Seq<char>>, present: Set<Seq<char>>, arch: Seq<char>) -> Option<
    Seq<char>,
>
    decreases needed.len(),
{
    if needed.len() == 0 {
        None
    } else if !present.contains(needed[0]) && !is_system(needed[0], arch) {
        Some(needed[0])
    } else {
        first_escape(needed.drop_first(), present, arch)
    }
}

/// The first reference (library, then run path) that names the cache.
pub open spec fn first_cache_reference(references: Seq<Seq<char>>, cache: Seq<char>) -> Option<Seq<char>>
    decreases references.len(),
{
    if references.len() == 0 {
        None
    } else if has_infix(references[0], cache) {
        Some(references[0])
    } else {
        first_cache_reference(references.drop_first(), cache)
    }
}

/// An object passes the Linux check exactly when each soname it needs is
/// packaged or a system library; one that fails is stopped at a needed
/// soname that is neither.
pub proof fn escape_check_passes_iff_all_provided(
    needed: Seq<Seq<char>>,
    present: Set<Seq<char>>,
    arch: Seq<char>,
)
    ensures
        first_escape(needed, present, arch) is None <==> forall|i: int|
            0 <= i < needed.len() ==> present.contains(#[trigger] needed[i]) || is_system(needed[i], arch),
        first_escape(needed, present, arch) matches Some(d) ==> needed.contains(d) && !present.contains(d)
            && !is_system(d, arch),
    decreases needed.len(),
{
    if needed.len() > 0 {
        escape_check_passes_iff_all_provided(needed.drop_first(), present, arch);
        assert forall|i: int| 0 < i < needed.len() implies needed[i] == needed.drop_first()[i - 1] by {}
        if first_escape(needed, present, arch) is None {
            assert forall|i: int| 0 <= i < needed.len() implies present.contains(#[trigger] needed[i])
                || is_system(needed[i], arch) by {
                if i > 0 {
                    assert(needed.drop_first()[i - 1] == needed[i]);
                }
            }
        }
        if let Some(d) = first_escape(needed, present, arch) {
            if d != needed[0] || present.contains(needed[0]) || is_system(needed[0], arch) {
                let k = choose|k: int| 0 <= k < needed.drop_first().len() && needed.drop_first()[k] == d;
                assert(needed[k + 1] == d);
            } else {
                assert(needed[0] == d);
            }
        }
    }
}

/// A Mach-O object passes the check exactly when none of the references it
/// makes names the cache; one that fails is stopped at such a reference.
pub proof fn cache_check_passes_iff_no_reference_names_it(references: Seq<Seq<char>>, cache: Seq<char>)
    ensures
        first_cache_reference(references, cache) is None <==> forall|i: int|
            0 <= i < references.len() ==> !has_infix(#[trigger] references[i], cache),
        first_cache_reference(references, cache) matches Some(d) ==> references.contains(d) && has_infix(
            d,
            cache,
        ),
    decreases references.len(),
{
    if references.len() > 0 {
        cache_check_passes_iff_no_reference_names_it(references.drop_first(), cache);
        assert forall|i: int| 0 < i < references.len() implies references[i] == references.drop_first()[i
            - 1] by {}
        if first_cache_reference(references, cache) is None {
            assert forall|i: int| 0 <= i < references.len() implies !has_infix(#[trigger] references[i], cache) by {
                if i > 0 {
                    assert(references.drop_first()[i - 1] == references[i]);
                }
            }
        }
        if let Some(d) = first_cache_reference(references, cache) {
            if !has_infix(references[0], cache) {
                let k = choose|k: int|
                    0 <= k < references.drop_first().len() && references.drop_first()[k] == d;
                assert(references[k + 1] == d);
            } else {
                assert(references[0] == d);
            }
        }
    }
}

impl Packager {
    /// The shared library files among a directory's entries, in order.
    pub fn packaged_libraries(&self, entries: &Vec<Entry>) -> (r: Vec<String>)
        ensures
            views(r@) == library_paths(self@.os, entry_views(entries@)),
    {
        let ghost all = entry_views(entries@);
        let mut r: Vec<String> = Vec::new();
        let n = entries.len();
        for i in 0..n
            invariant
                n == entries.len(),
                all == entry_views(entries@),
                views(r@) == library_paths(self.os, all.take(i as int)),
        {
            let ghost t = all.take(i + 1);
            assert(t.drop_last() =~= all.take(i as int));
            assert(t.last() == entry_view(entries@[i as int]));
            if library_entry(self.os, &entries[i]).is_some() {
                let ghost before = views(r@);
                r.push(entries[i].path.clone());
                assert(views(r@) =~= before.push(entries@[i as int].path@));
            }
        }
        assert(all.take(n as int) =~= all);
        r
    }

    /// The objects whose dependencies are checked: the packaged binary, then
    /// the libraries of the package's library and analyses directories.
    pub fn objects_to_verify(&self, lib_entries: &Vec<Entry>, analyses_entries: &Vec<Entry>) -> (r:
        Vec<String>)
        ensures
            views(r@) == seq![path_join(path_join(self@.out, "bin"@), self@.name)] + library_paths(
                self@.os,
                entry_views(lib_entries@),
            ) + library_paths(self@.os, entry_views(analyses_entries@)),
    {
        let mut r: Vec<String> = Vec::new();
        r.push(self.packaged_binary());
        let a = self.packaged_libraries(lib_entries);
        let b = self.packaged_libraries(analyses_entries);
        let ghost first = views(r@);
        let n = a.len();
        for i in 0..n
            invariant
                n == a.len(),
                views(r@) == first + views(a@).take(i as int),
        {
            let ghost before = views(r@);
            r.push(a[i].clone());
            assert(views(r@) =~= before.push(a@[i as int]@));
            assert(views(a@).take(i + 1) =~= views(a@).take(i as int).push(a@[i as int]@));
        }
        assert(views(a@).take(n as int) =~= views(a@));
        let ghost second = views(r@);
        let m = b.len();
        for i in 0..m
            invariant
                m == b.len(),
                views(r@) == second + views(b@).take(i as int),
        {
            let ghost before = views(r@);
            r.push(b[i].clone());
            assert(views(r@) =~= before.push(b@[i as int]@));
            assert(views(b@).take(i + 1) =~= views(b@).take(i as int).push(b@[i as int]@));
        }
        assert(views(b@).take(m as int) =~= views(b@));
        r
    }

    /// The stages of assembling the package, in order: relocation on Linux
    /// only, stripping only when the packager strips.
    pub fn stages(&self) -> (r: Vec<Stage>)
        ensures
            r@ == package_stages(self@),
    {
        let mut r: Vec<Stage> = vec![
            Stage::Validate,
            Stage::PrepareOut,
            Stage::CopyBinary,
            Stage::CopyLibraries,
            Stage::CopyShare,
        ];
        match self.os {
            Os::Linux => r.push(Stage::BundleAndRelocate),
            Os::MacOs => {},
        }
        if self.strip {
            r.push(Stage::Strip);
        }
        r.push(Stage::Verify);
        assert(r@ =~= package_stages(self@));
        r
    }

    /// Whether the output directory can take the package: not when it is
    /// occupied (exists and has entries).
    pub fn output_ready(&self, occupied: bool) -> (r: Result<(), Error>)
        ensures
            match r {
                Ok(()) => !occupied,
                Err(e) => occupied && (e matches Error::OutputNotEmpty(o) && o@ == self@.out),
            },
    {
        if occupied {
            Err(Error::OutputNotEmpty(self.out.clone()))
        } else {
            Ok(())
        }
    }

    /// The run paths set on Linux: each packaged library's, then each
    /// packaged analysis's.
    pub fn relocations(&self, lib_entries: &Vec<Entry>, analyses_entries: &Vec<Entry>) -> (r: Vec<
        (String, &'static str),
    >)
        ensures
            r@.map_values(|p: (String, &'static str)| (p.0@, p.1@)) == library_paths(
                self@.os,
                entry_views(lib_entries@),
            ).map_values(|l: Seq<char>| (l, "$ORIGIN:$ORIGIN/revng/analyses"@)) + library_paths(
                self@.os,
                entry_views(analyses_entries@),
            ).map_values(|a: Seq<char>| (a, "$ORIGIN:$ORIGIN/../.."@)),
    {
        let a = self.packaged_libraries(lib_entries);
        let b = self.packaged_libraries(analyses_entries);
        let ghost va = views(a@);
        let ghost vb = views(b@);
        let mut r: Vec<(String, &'static str)> = Vec::new();
        let n = a.len();
        for i in 0..n
            invariant
                n == a.len(),
                va == views(a@),
                r@.map_values(|p: (String, &'static str)| (p.0@, p.1@)) == va.take(i as int).map_values(
                    |l: Seq<char>| (l, "$ORIGIN:$ORIGIN/revng/analyses"@),
                ),
        {
            let ghost before = r@;
            let ghost prev = va.take(i as int).map_values(
                |l: Seq<char>| (l, "$ORIGIN:$ORIGIN/revng/analyses"@),
            );
            r.push((a[i].clone(), library_runpath()));
            assert(r@ =~= before.push(r@.last()));
            assert(va.take(i + 1) =~= va.take(i as int).push(va[i as int]));
            assert(va.take(i + 1).map_values(|l: Seq<char>| (l, "$ORIGIN:$ORIGIN/revng/analyses"@))
                =~= prev.push((va[i as int], "$ORIGIN:$ORIGIN/revng/analyses"@)));
            assert(r@.map_values(|p: (String, &'static str)| (p.0@, p.1@)) =~= before.map_values(
                |p: (String, &'static str)| (p.0@, p.1@),
            ).push((va[i as int], "$ORIGIN:$ORIGIN/revng/analyses"@)));
        }
        assert(va.take(n as int) =~= va);
        let ghost first = r@.map_values(|p: (String, &'static str)| (p.0@, p.1@));
        let m = b.len();
        for i in 0..m
            invariant
                m == b.len(),
                vb == views(b@),
                r@.map_values(|p: (String, &'static str)| (p.0@, p.1@)) == first + vb.take(
                    i as int,
                ).map_values(|l: Seq<char>| (l, "$ORIGIN:$ORIGIN/../.."@)),
        {
            let ghost before = r@;
            let ghost prev = vb.take(i as int).map_values(|l: Seq<char>| (l, "$ORIGIN:$ORIGIN/../.."@));
            r.push((b[i].clone(), analysis_runpath()));
            assert(r@ =~= before.push(r@.last()));
            assert(vb.take(i + 1) =~= vb.take(i as int).push(vb[i as int]));
            assert(vb.take(i + 1).map_values(|l: Seq<char>| (l, "$ORIGIN:$ORIGIN/../.."@)) =~= prev.push(
                (vb[i as int], "$ORIGIN:$ORIGIN/../.."@),
            ));
            assert(r@.map_values(|p: (String, &'static str)| (p.0@, p.1@)) =~= before.map_values(
                |p: (String, &'static str)| (p.0@, p.1@),
            ).push((vb[i as int], "$ORIGIN:$ORIGIN/../.."@)));
            assert((first + prev).push((vb[i as int], "$ORIGIN:$ORIGIN/../.."@)) =~= first + prev.push(
                (vb[i as int], "$ORIGIN:$ORIGIN/../.."@),
            ));
        }
        assert(vb.take(m as int) =~= vb);
        r
    }

    /// The arguments of each `strip` run: the packaged binary as it is, then
    /// each library of the package's library and analyses directories with
    /// `--strip-unneeded`.
    pub fn strip_invocations(&self, lib_entries: &Vec<Entry>, analyses_entries: &Vec<Entry>) -> (r: Vec<
        Vec<String>,
    >)
        ensures
            r@.map_values(|a: Vec<String>| views(a@)) == seq![
                seq![path_join(path_join(self@.out, "bin"@), self@.name)],
            ] + (library_paths(self@.os, entry_views(lib_entries@)) + library_paths(
                self@.os,
                entry_views(analyses_entries@),
            )).map_values(|l: Seq<char>| seq!["--strip-unneeded"@, l]),
    {
        let objects = self.objects_to_verify(lib_entries, analyses_entries);
        let ghost libs = library_paths(self@.os, entry_views(lib_entries@)) + library_paths(
            self@.os,
            entry_views(analyses_entries@),
        );
        assert(views(objects@).drop_first() =~= libs);
        let mut r: Vec<Vec<String>> = Vec::new();
        r.push(vec![objects[0].clone()]);
        assert(r@.map_values(|a: Vec<String>| views(a@)) =~~= seq![seq![objects@[0]@]]);
        let n = objects.len();
        for i in 1..n
            invariant
                n == objects.len(),
                n >= 1,
                views(objects@).drop_first() == libs,
                r@.map_values(|a: Vec<String>| views(a@)) == seq![seq![objects@[0]@]] + libs.take(
                    i - 1,
                ).map_values(|l: Seq<char>| seq!["--strip-unneeded"@, l]),
        {
            let ghost before = r@;
            let line = vec![String::from_str("--strip-unneeded"), objects[i].clone()];
            assert(views(line@) =~= seq!["--strip-unneeded"@, objects@[i as int]@]);
            r.push(line);
            assert(r@ =~= before.push(r@.last()));
            assert(libs[i - 1] == objects@[i as int]@);
            assert(libs.take(i as int) =~= libs.take(i - 1).push(libs[i - 1]));
            let ghost prev = libs.take(i - 1).map_values(|l: Seq<char>| seq!["--strip-unneeded"@, l]);
            let ghost item = seq!["--strip-unneeded"@, libs[i - 1]];
            assert(libs.take(i as int).map_values(|l: Seq<char>| seq!["--strip-unneeded"@, l]) =~~= prev.push(
                item,
            ));
            assert(r@.map_values(|a: Vec<String>| views(a@)) =~~= before.map_values(
                |a: Vec<String>| views(a@),
            ).push(item));
            assert((seq![seq![objects@[0]@]] + prev).push(item) =~~= seq![seq![objects@[0]@]] + prev.push(
                item,
            ));
        }
        assert(libs.take(n - 1) =~= libs);
        assert(views(objects@)[0] == objects@[0]@);
        r
    }
}

/// A stage of assembling a package.
#[derive(Clone, Copy, Debug, PartialEq, Eq, Structural)]
pub enum Stage {
    /// Check that every input exists.
    Validate,
    /// Check that the output directory is unoccupied and create its layout.
    PrepareOut,
    /// Copy the consumer binary and make it executable.
    CopyBinary,
    /// Merge the library trees and copy the analyses.
    CopyLibraries,
    /// Copy the SDK's shared data, keeping symbolic links.
    CopyShare,
    /// Set the run paths and bundle the libraries the package still needs.
    BundleAndRelocate,
    /// Strip the shipped binaries.
    Strip,
    /// Check that nothing in the package escapes it.
    Verify,
}

/// The stages of assembling a package, in order.
pub open spec fn package_stages(p: PackagerView) -> Seq<Stage> {
    seq![Stage::Validate, Stage::PrepareOut, Stage::CopyBinary, Stage::CopyLibraries, Stage::CopyShare]
        + (if p.os == Os::Linux {
        seq![Stage::BundleAndRelocate]
    } else {
        seq![]
    }) + (if p.strip {
        seq![Stage::Strip]
    } else {
        seq![]
    }) + seq![Stage::Verify]
}

/// The file names of the entries of the package's library and analyses
/// directories: what the package provides.
pub fn packaged_names(lib_paths: &Vec<String>, analyses_paths: &Vec<String>) -> (r: PathSet)
    ensures
        r@ == entry_names(views(lib_paths@) + views(analyses_paths@)),
{
    let ghost all = views(lib_paths@) + views(analyses_paths@);
    let mut r = PathSet::new();
    let n = lib_paths.len();
    for i in 0..n
        invariant
            n == lib_paths.len(),
            all == views(lib_paths@) + views(analyses_paths@),
            r@ == entry_names(all.take(i as int)),
    {
        assert(all[i as int] == lib_paths@[i as int]@);
        add_name(&mut r, lib_paths[i].as_str(), Ghost(all), Ghost(i as int));
    }
    let m = analyses_paths.len();
    for i in 0..m
        invariant
            n == lib_paths.len(),
            m == analyses_paths.len(),
            all == views(lib_paths@) + views(analyses_paths@),
            r@ == entry_names(all.take(n + i)),
    {
        assert(all[n + i] == analyses_paths@[i as int]@);
        add_name(&mut r, analyses_paths[i].as_str(), Ghost(all), Ghost(n + i));
    }
    assert(all.take(n + m) =~= all);
    r
}

fn add_name(r: &mut PathSet, path: &str, all: Ghost<Seq<Seq<char>>>, i: Ghost<int>)
    requires
        0 <= i@ < all@.len(),
        all@[i@] == path@,
        old(r)@ == entry_names(all@.take(i@)),
    ensures
        final(r)@ == entry_names(all@.take(i@ + 1)),
{
    let ghost t = all@.take(i@ + 1);
    assert(t[i@] == path@);
    match file_name(path) {
        Some(n) => {
            r.insert(n);
            assert(final(r)@ =~= entry_names(t)) by {
                assert forall|x: Seq<char>| entry_names(t).contains(x) implies final(r)@.contains(x) by {
                    let j = choose|j: int| 0 <= j < t.len() && path_file_name(t[j]) == Some(x);
                    if j < i@ {
                        assert(all@.take(i@)[j] == t[j]);
                    }
                }
                assert forall|x: Seq<char>| final(r)@.contains(x) implies entry_names(t).contains(x) by {
                    if x != n@ {
                        let j = choose|j: int| 0 <= j < i@ && path_file_name(all@.take(i@)[j]) == Some(x);
                        assert(t[j] == all@.take(i@)[j]);
                    }
                }
            }
        },
        None => {
            assert(old(r)@ =~= entry_names(t)) by {
                assert forall|x: Seq<char>| entry_names(t).contains(x) implies old(r)@.contains(x) by {
                    let j = choose|j: int| 0 <= j < t.len() && path_file_name(t[j]) == Some(x);
                    assert(j != i@);
                    assert(all@.take(i@)[j] == t[j]);
                }
                assert forall|x: Seq<char>| old(r)@.contains(x) implies entry_names(t).contains(x) by {
                    let j = choose|j: int| 0 <= j < i@ && path_file_name(all@.take(i@)[j]) == Some(x);
                    assert(t[j] == all@.take(i@)[j]);
                }
            }
        },
    }
}

/// Checks one object on Linux: every soname it needs (`needed`) must be in
/// the package (`present`) or provided by the system; the first that is
/// neither is `EscapedDependency`.
pub fn check_needed(object: &str, needed: &Vec<String>, present: &PathSet, arch: &str) -> (r: Result<
    (),
    Error,
>)
    ensures
        match r {
            Ok(()) => first_escape(views(needed@), present@, arch@) is None,
            Err(e) => exists|d: Seq<char>|
                first_escape(views(needed@), present@, arch@) == Some(d) && (e matches Error::EscapedDependency {
                    library,
                    dependency,
                } && library@ == object@ && dependency@ == d),
        },
{
    let ghost all = views(needed@);
    assert(all.skip(0) =~= all);
    let n = needed.len();
    for i in 0..n
        invariant
            n == needed.len(),
            all == views(needed@),
            first_escape(all, present@, arch@) == first_escape(all.skip(i as int), present@, arch@),
    {
        assert(all.skip(i as int)[0] == needed@[i as int]@);
        assert(all.skip(i as int).drop_first() =~= all.skip(i + 1));
        if !present.contains(&needed[i]) && !is_system_library(needed[i].as_str(), arch) {
            return Err(
                Error::EscapedDependency {
                    library: String::from_str(object),
                    dependency: needed[i].clone(),
                },
            );
        }
    }
    assert(all.skip(n as int) =~= Seq::<Seq<char>>::empty());
    Ok(())
}

/// Checks one object on macOS: none of the libraries it loads (`dylibs`),
/// then none of its run paths (`rpaths`), may name the cache; the first that
/// does is `EscapedDependency`.
pub fn check_references(cache: &str, object: &str, dylibs: &Vec<String>, rpaths: &Vec<String>) -> (r:
    Result<(), Error>)
    ensures
        match r {
            Ok(()) => first_cache_reference(views(dylibs@) + views(rpaths@), cache@) is None,
            Err(e) => exists|d: Seq<char>|
                first_cache_reference(views(dylibs@) + views(rpaths@), cache@) == Some(d) && (
                e matches Error::EscapedDependency { library, dependency } && library@ == object@
                    && dependency@ == d),
        },
{
    let c = chars_of(cache);
    let mut all_refs: Vec<String> = Vec::new();
    let n = dylibs.len();
    for i in 0..n
        invariant
            n == dylibs.len(),
            views(all_refs@) == views(dylibs@).take(i as int),
    {
        let ghost before = views(all_refs@);
        all_refs.push(dylibs[i].clone());
        assert(views(all_refs@) =~= before.push(dylibs@[i as int]@));
        assert(views(dylibs@).take(i + 1) =~= views(dylibs@).take(i as int).push(dylibs@[i as int]@));
    }
    assert(views(dylibs@).take(n as int) =~= views(dylibs@));
    let m = rpaths.len();
    for i in 0..m
        invariant
            m == rpaths.len(),
            views(all_refs@) == views(dylibs@) + views(rpaths@).take(i as int),
    {
        let ghost before = views(all_refs@);
        all_refs.push(rpaths[i].clone());
        assert(views(all_refs@) =~= before.push(rpaths@[i as int]@));
        assert(views(rpaths@).take(i + 1) =~= views(rpaths@).take(i as int).push(rpaths@[i as int]@));
    }
    assert(views(rpaths@).take(m as int) =~= views(rpaths@));
    let ghost all = views(all_refs@);
    assert(all.skip(0) =~= all);
    let k = all_refs.len();
    for i in 0..k
        invariant
            k == all_refs.len(),
            all == views(all_refs@),
            all == views(dylibs@) + views(rpaths@),
            c@ == cache@,
            first_cache_reference(all, cache@) == first_cache_reference(all.skip(i as int), cache@),
    {
        assert(all.skip(i as int)[0] == all_refs@[i as int]@);
        assert(all.skip(i as int).drop_first() =~= all.skip(i + 1));
        if contains_exec(&chars_of(all_refs[i].as_str()), &c) {
            return Err(
                Error::EscapedDependency {
                    library: String::from_str(object),
                    dependency: all_refs[i].clone(),
                },
            );
        }
    }
    assert(all.skip(k as int) =~= Seq::<Seq<char>>::empty());
    Ok(())
}

// ---------------------------------------------------------------------------
// The summary
// ---------------------------------------------------------------------------

/// What a finished package holds.
pub struct Summary {
    /// The package directory.
    pub out: String,
    /// How many libraries went to its library directory.
    pub libraries: usize,
    /// How many analyses went to its analyses directory.
    pub analyses: usize,
    /// The system libraries bundled, in name order.
    pub bundled: Vec<String>,
    /// Whether the shipped binaries were stripped.
    pub stripped: bool,
}

/// The report of a finished package, one line each: what was packaged, what
/// was bundled (when anything was), and whether binaries were stripped.
pub open spec fn summary_lines(
    out: Seq<char>,
    libraries: nat,
    analyses: nat,
    bundled: Seq<Seq<char>>,
    stripped: bool,
) -> Seq<Seq<char>> {
    seq![
        "packaged "@ + decimal(libraries) + " libraries and "@ + decimal(analyses) + " analyses into "@
            + out,
    ] + (if bundled.len() > 0 {
        seq!["bundled "@ + decimal(bundled.len()) + ": "@ + join_with(bundled, ", "@)]
    } else {
        seq![]
    }) + (if stripped {
        seq!["stripped shipped binaries"@]
    } else {
        seq![]
    })
}

/// A report says the shipped binaries were stripped exactly when they
/// were: the line "stripped shipped binaries" is in it if and only if the
/// summary says so, and then it is the last line. The first line always
/// tells what was packaged.
pub proof fn the_report_mentions_stripping_iff_stripped(
    out: Seq<char>,
    libraries: nat,
    analyses: nat,
    bundled: Seq<Seq<char>>,
    stripped: bool,
)
    ensures
        summary_lines(out, libraries, analyses, bundled, stripped).contains("stripped shipped binaries"@)
            <==> stripped,
        stripped ==> summary_lines(out, libraries, analyses, bundled, stripped).last()
            == "stripped shipped binaries"@,
        summary_lines(out, libraries, analyses, bundled, stripped)[0].take(9) == "packaged "@,
        summary_lines(out, libraries, analyses, bundled, stripped).len() == 1 + (if bundled.len() > 0 {
            1int
        } else {
            0
        }) + (if stripped {
            1int
        } else {
            0
        }),
{
    reveal_strlit("stripped shipped binaries");
    reveal_strlit("packaged ");
    reveal_strlit("bundled ");
    let lines = summary_lines(out, libraries, analyses, bundled, stripped);
    let first = "packaged "@ + decimal(libraries) + " libraries and "@ + decimal(analyses) + " analyses into "@
        + out;
    assert(lines[0] == first);
    assert(first[0] == 'p');
    assert(first.take(9) =~= "packaged "@);
    let target = "stripped shipped binaries"@;
    assert(target[0] == 's');
    if lines.contains(target) {
        let i = choose|i: int| 0 <= i < lines.len() && lines[i] == target;
        if i == 0 {
            assert(lines[0][0] == 'p');
        } else if bundled.len() > 0 && i == 1 {
            let b = "bundled "@ + decimal(bundled.len()) + ": "@ + join_with(bundled, ", "@);
            assert(lines[1] == b);
            assert(b[0] == 'b');
        } else {
            assert(stripped);
        }
    }
    if stripped {
        assert(lines[lines.len() - 1] == target);
    }
}

impl Summary {
    /// The report of the package (see `summary_lines`).
    pub fn report(&self) -> (r: Vec<String>)
        ensures
            views(r@) == summary_lines(
                self.out@,
                self.libraries as nat,
                self.analyses as nat,
                views(self.bundled@),
                self.stripped,
            ),
    {
        let mut r: Vec<String> = Vec::new();
        let mut first = String::from_str("packaged ");
        push_decimal(&mut first, self.libraries);
        first.append(" libraries and ");
        push_decimal(&mut first, self.analyses);
        first.append(" analyses into ");
        first.append(self.out.as_str());
        r.push(first);
        if self.bundled.len() > 0 {
            let mut line = String::from_str("bundled ");
            push_decimal(&mut line, self.bundled.len());
            line.append(": ");
            line.append(join_strings(&self.bundled, ", ").as_str());
            r.push(line);
        }
        if self.stripped {
            r.push(String::from_str("stripped shipped binaries"));
        }
        assert(views(r@) =~= summary_lines(
            self.out@,
            self.libraries as nat,
            self.analyses as nat,
            views(self.bundled@),
            self.stripped,
        ));
        r
    }
}

} // verus!
