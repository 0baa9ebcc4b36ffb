//! What provisioning needs from the host before it starts, and the verdict
//! on what a probe of the host found.
use vstd::prelude::*;

use crate::dependency::{Dependency, boost, libarchive, zstd_spec};
use crate::discovery::{first_present, lookup, search_candidates};
use crate::error::Error;
use crate::os::Os;
use crate::paths::{PathSet, join, parent, path_join, path_parent};
use crate::provision::{MissingPrerequisites, Prerequisite};
use crate::text::{
    before_char, chars_of, find, find_exec, lines, lines_exec, parse_u32, parse_u32_exec,
    slice_of, str_eq, strip_prefix, strip_prefix_exec, take_before_char, trim, trim_exec, views,
};

verus! {

/// The oldest clang that builds the MLIR sources.
pub const MIN_CLANG_MAJOR: u32 = 16;

/// The oldest libc++ (`_LIBCPP_VERSION`) that builds the cxx crate.
pub const MIN_LIBCXX_VERSION: u32 = 170000;

/// The build tools provisioning runs.
pub open spec fn tool_list() -> Seq<Prerequisite> {
    seq![
        Prerequisite {
            name: "clang-format",
            brew: Some("brew install clang-format"),
            apt: Some("apt-get install clang-format"),
        },
        Prerequisite { name: "cmake", brew: Some("brew install cmake"), apt: Some("apt-get install cmake") },
        Prerequisite {
            name: "ninja",
            brew: Some("brew install ninja"),
            apt: Some("apt-get install ninja-build"),
        },
        Prerequisite {
            name: "python3",
            brew: Some("brew install python@3.13"),
            apt: Some("apt-get install python3 python3-dev python3-venv"),
        },
    ]
}

/// The build tools provisioning runs.
pub fn tools() -> (r: Vec<Prerequisite>)
    ensures
        r@ == tool_list(),
{
    let r = vec![
        Prerequisite {
            name: "clang-format",
            brew: Some("brew install clang-format"),
            apt: Some("apt-get install clang-format"),
        },
        Prerequisite { name: "cmake", brew: Some("brew install cmake"), apt: Some("apt-get install cmake") },
        Prerequisite {
            name: "ninja",
            brew: Some("brew install ninja"),
            apt: Some("apt-get install ninja-build"),
        },
        Prerequisite {
            name: "python3",
            brew: Some("brew install python@3.13"),
            apt: Some("apt-get install python3 python3-dev python3-venv"),
        },
    ];
    assert(r@ =~= tool_list());
    r
}

/// The dependencies whose headers provisioning needs.
pub open spec fn header_dependencies() -> Seq<Dependency> {
    seq![boost(), libarchive(), zstd_spec()]
}

/// The formulas for which a header prerequisite is known.
pub open spec fn known_formula(formula: Seq<char>) -> bool {
    formula == "boost"@ || formula == "libarchive"@ || formula == "zstd"@
}

/// The prerequisite that stands for a dependency's missing headers.
pub open spec fn header_prerequisite_of(formula: Seq<char>) -> Prerequisite {
    if formula == "boost"@ {
        Prerequisite {
            name: "boost headers",
            brew: Some("brew install boost"),
            apt: Some("apt-get install libboost-all-dev"),
        }
    } else if formula == "libarchive"@ {
        Prerequisite {
            name: "libarchive headers",
            brew: Some("brew install libarchive"),
            apt: Some("apt-get install libarchive-dev"),
        }
    } else {
        Prerequisite {
            name: "zstd headers",
            brew: Some("brew install zstd"),
            apt: Some("apt-get install libzstd-dev"),
        }
    }
}

/// The prerequisite that stands for a dependency's missing headers.
pub fn header_prerequisite(dependency: &Dependency) -> (r: Prerequisite)
    requires
        known_formula(dependency.formula@),
    ensures
        r == header_prerequisite_of(dependency.formula@),
{
    if str_eq(dependency.formula, "boost") {
        Prerequisite {
            name: "boost headers",
            brew: Some("brew install boost"),
            apt: Some("apt-get install libboost-all-dev"),
        }
    } else if str_eq(dependency.formula, "libarchive") {
        Prerequisite {
            name: "libarchive headers",
            brew: Some("brew install libarchive"),
            apt: Some("apt-get install libarchive-dev"),
        }
    } else {
        Prerequisite {
            name: "zstd headers",
            brew: Some("brew install zstd"),
            apt: Some("apt-get install libzstd-dev"),
        }
    }
}

/// The tools among `tools` that are not on the search path `path_var`
/// (`files` holds the candidates that are files), in order.
pub open spec fn absent_tools(tools: Seq<Prerequisite>, path_var: Seq<char>, files: Set<Seq<char>>) -> Seq<
    Prerequisite,
>
    decreases tools.len(),
{
    if tools.len() == 0 {
        seq![]
    } else {
        let rest = absent_tools(tools.drop_last(), path_var, files);
        if first_present(search_candidates(path_var, tools.last().name@), files) is None {
            rest.push(tools.last())
        } else {
            rest
        }
    }
}

/// The build tools that are not on the search path.
pub fn missing_tools(path_var: &str, files: &PathSet) -> (r: Vec<Prerequisite>)
    ensures
        r@ == absent_tools(tool_list(), path_var@, files@),
{
    let all = tools();
    let mut r: Vec<Prerequisite> = Vec::new();
    let n = all.len();
    for i in 0..n
        invariant
            n == all.len(),
            all@ == tool_list(),
            r@ == absent_tools(all@.take(i as int), path_var@, files@),
    {
        let tool = all[i];
        let ghost t = all@.take(i + 1);
        assert(t.drop_last() =~= all@.take(i as int));
        assert(t.last() == tool);
        if lookup(path_var, tool.name, files).is_none() {
            r.push(tool);
        }
    }
    assert(all@.take(n as int) =~= all@);
    r
}

/// Where the bootstrap compiler `tool` is: on Linux the first candidate on
/// the search path that is a file; on macOS `/usr/bin/{tool}` if it exists.
/// `found` holds the candidates that passed that check.
pub open spec fn bootstrap_location(os: Os, tool: Seq<char>, path_var: Seq<char>, found: Set<
    Seq<char>,
>) -> Option<Seq<char>> {
    match os {
        Os::Linux => first_present(search_candidates(path_var, tool), found),
        Os::MacOs => if found.contains(path_join("/usr/bin"@, tool)) {
            Some(path_join("/usr/bin"@, tool))
        } else {
            None
        },
    }
}

/// Where the bootstrap compiler `tool` is (see `bootstrap_location`).
pub fn bootstrap_compiler(os: Os, tool: &str, path_var: &str, found: &PathSet) -> (r: Option<String>)
    ensures
        opt_view_of(r) == bootstrap_location(os, tool@, path_var@, found@),
{
    match os {
        Os::Linux => lookup(path_var, tool, found),
        Os::MacOs => {
            let apple = join("/usr/bin", tool);
            if found.contains(&apple) {
                Some(apple)
            } else {
                None
            }
        },
    }
}

/// The view of an optional string.
pub open spec fn opt_view_of(o: Option<String>) -> Option<Seq<char>> {
    crate::text::opt_view(o)
}

/// The major version in `clang --version` output: the text after the first
/// `clang version` (up to any next one), trimmed, up to its first `.`.
pub open spec fn clang_major_of(text: Seq<char>) -> Option<u32> {
    let pat = "clang version"@;
    match find(text, pat) {
        None => None,
        Some(i) => {
            let rest = text.skip(i + pat.len());
            let version = match find(rest, pat) {
                Some(j) => rest.take(j),
                None => rest,
            };
            parse_u32(before_char(trim(version), '.'))
        },
    }
}

/// The clang major version that `clang --version` printed, if it says.
pub fn parse_clang_major(text: &str) -> (r: Option<u32>)
    ensures
        r == clang_major_of(text@),
{
    proof {
        reveal_strlit("clang version");
    }
    let t = chars_of(text);
    let pat = chars_of("clang version");
    let i = match find_exec(&t, &pat) {
        Some(i) => i,
        None => {
            return None;
        },
    };
    proof {
        crate::text::lemma_find_from_bounds(t@, pat@, 0);
        assert(crate::text::find(t@, pat@) == Some(i as int));
        assert(crate::text::occurs_at(t@, pat@, i as int));
        assert(i + pat@.len() <= t@.len());
    }
    assert(i + pat.len() <= t.len());
    let rest = slice_of(&t, i + pat.len(), t.len());
    assert(rest@ =~= t@.skip(i + pat@.len()));
    let version = match find_exec(&rest, &pat) {
        Some(j) => {
            proof {
                crate::text::lemma_find_from_bounds(rest@, pat@, 0);
            }
            slice_of(&rest, 0, j)
        },
        None => rest,
    };
    parse_u32_exec(&take_before_char(&trim_exec(&version), '.'))
}

/// The first line that starts with `prefix`, without it.
pub open spec fn first_stripped(ls: Seq<Seq<char>>, prefix: Seq<char>) -> Option<Seq<char>>
    decreases ls.len(),
{
    if ls.len() == 0 {
        None
    } else {
        match strip_prefix(ls[0], prefix) {
            Some(rest) => Some(rest),
            None => first_stripped(ls.drop_first(), prefix),
        }
    }
}

/// `_LIBCPP_VERSION` as the preprocessor defines it: the first line that
/// defines it, its value trimmed, as a number.
pub open spec fn libcxx_version_of(text: Seq<char>) -> Option<u32> {
    match first_stripped(lines(text), "#define _LIBCPP_VERSION "@) {
        Some(v) => parse_u32(trim(v)),
        None => None,
    }
}

/// The libc++ version in the preprocessor's list of macro definitions.
pub fn parse_libcxx_version(text: &str) -> (r: Option<u32>)
    ensures
        r == libcxx_version_of(text@),
{
    let ls = lines_exec(&chars_of(text));
    let prefix = chars_of("#define _LIBCPP_VERSION ");
    let ghost all = ls@.map_values(|l: Vec<char>| l@);
    assert(all.skip(0) =~= all);
    let n = ls.len();
    for i in 0..n
        invariant
            n == ls.len(),
            all == ls@.map_values(|l: Vec<char>| l@),
            all == lines(text@),
            prefix@ == "#define _LIBCPP_VERSION "@,
            first_stripped(all, prefix@) == first_stripped(all.skip(i as int), prefix@),
    {
        assert(all.skip(i as int)[0] == ls@[i as int]@);
        assert(all.skip(i as int).drop_first() =~= all.skip(i + 1));
        match strip_prefix_exec(&ls[i], &prefix) {
            Some(rest) => {
                return parse_u32_exec(&trim_exec(&rest));
            },
            None => {},
        }
    }
    assert(all.skip(n as int) =~= Seq::<Seq<char>>::empty());
    None
}

/// What a probe of the host found, besides the build tools.
pub struct HostFacts {
    /// `clang++` was found as a bootstrap compiler.
    pub clangxx_found: bool,
    /// `clang` was found as a bootstrap compiler.
    pub clang_found: bool,
    /// For boost, libarchive and zstd in turn: whether its headers were found
    /// (configured, discovered, or in `/usr/include`).
    pub headers_found: Vec<bool>,
    /// The major version `clang++ --version` reported, if it ran and said.
    pub clang_major: Option<u32>,
    /// `clang++ -print-file-name=libc++.so` printed an absolute path.
    pub libcxx_found: bool,
    /// The libc++ version the preprocessor reported, if it ran and said.
    pub libcxx_version: Option<u32>,
    /// `/usr/include/sqlite3.h` exists.
    pub sqlite_headers: bool,
}

/// A missing bootstrap compiler.
pub open spec fn clang_prerequisite() -> Prerequisite {
    Prerequisite { name: "clang++", brew: Some("xcode-select --install"), apt: Some("apt-get install clang") }
}

/// A clang too old for the MLIR sources.
pub open spec fn old_clang_prerequisite() -> Prerequisite {
    Prerequisite {
        name: "clang >= 16",
        brew: None,
        apt: Some(
            "stock clang is too old for the C++20 MLIR sources; install clang-16 or newer (see apt.llvm.org)",
        ),
    }
}

/// A missing libc++.
pub open spec fn libcxx_prerequisite() -> Prerequisite {
    Prerequisite { name: "libc++", brew: None, apt: Some("apt-get install libc++-dev libc++abi-dev") }
}

/// A libc++ too old for the cxx crate.
pub open spec fn old_libcxx_prerequisite() -> Prerequisite {
    Prerequisite {
        name: "libc++ >= 17",
        brew: None,
        apt: Some(
            "libc++ 16 hard-errors on the cxx crate's C++20 concept checks; install a newer clang/libc++ (see apt.llvm.org)",
        ),
    }
}

/// Missing sqlite3 headers.
pub open spec fn sqlite_prerequisite() -> Prerequisite {
    Prerequisite { name: "sqlite3 headers", brew: None, apt: Some("apt-get install libsqlite3-dev") }
}

/// The header prerequisites for the dependencies whose headers were not found.
pub open spec fn missing_headers(deps: Seq<Dependency>, found: Seq<bool>) -> Seq<Prerequisite>
    decreases deps.len(),
{
    if deps.len() == 0 {
        seq![]
    } else {
        let rest = missing_headers(deps.drop_last(), found.drop_last());
        if !found.last() {
            rest.push(header_prerequisite_of(deps.last().formula@))
        } else {
            rest
        }
    }
}

/// The toolchain prerequisites only Linux checks.
pub open spec fn linux_missing(f: HostFacts) -> Seq<Prerequisite> {
    (if f.clangxx_found && (f.clang_major matches Some(m) && m < MIN_CLANG_MAJOR) {
        seq![old_clang_prerequisite()]
    } else {
        seq![]
    }) + (if !(f.clangxx_found && f.libcxx_found) {
        seq![libcxx_prerequisite()]
    } else if f.clangxx_found && (f.libcxx_version matches Some(v) && v < MIN_LIBCXX_VERSION) {
        seq![old_libcxx_prerequisite()]
    } else {
        seq![]
    }) + (if !f.sqlite_headers {
        seq![sqlite_prerequisite()]
    } else {
        seq![]
    })
}

/// Everything found missing, in the order it is checked: the build tools,
/// the bootstrap compilers, the headers, then (on Linux) clang's and
/// libc++'s versions and the sqlite3 headers.
pub open spec fn all_missing(os: Os, tools: Seq<Prerequisite>, f: HostFacts) -> Seq<Prerequisite> {
    tools + (if !f.clangxx_found || !f.clang_found {
        seq![clang_prerequisite()]
    } else {
        seq![]
    }) + missing_headers(header_dependencies(), f.headers_found@) + (if os == Os::Linux {
        linux_missing(f)
    } else {
        seq![]
    })
}

/// The dependencies whose headers provisioning needs.
fn header_dependency_list() -> (r: Vec<Dependency>)
    ensures
        r@ == header_dependencies(),
{
    let mut r = crate::dependency::dependencies();
    r.push(crate::dependency::zstd());
    assert(r@ =~= header_dependencies());
    r
}

fn push_prerequisite(v: &mut Vec<Prerequisite>, p: Prerequisite)
    ensures
        final(v)@ == old(v)@.push(p),
{
    v.push(p);
}

/// The verdict of the preflight check: `Ok` when nothing is missing,
/// otherwise a report of everything missing (see `all_missing`). `tools`
/// are the build tools found missing (`missing_tools`).
pub fn preflight_verdict(os: Os, tools: Vec<Prerequisite>, facts: &HostFacts) -> (r: Result<(), Error>)
    requires
        facts.headers_found@.len() == 3,
    ensures
        match r {
            Ok(()) => all_missing(os, tools@, *facts).len() == 0,
            Err(Error::Preflight(m)) => all_missing(os, tools@, *facts).len() > 0 && m.missing_spec()
                == all_missing(os, tools@, *facts) && m.os_spec() == os,
            Err(_) => false,
        },
{
    let ghost tools0 = tools@;
    let mut missing = tools;
    if !facts.clangxx_found || !facts.clang_found {
        push_prerequisite(
            &mut missing,
            Prerequisite {
                name: "clang++",
                brew: Some("xcode-select --install"),
                apt: Some("apt-get install clang"),
            },
        );
    }
    let ghost after_clang = missing@;
    let deps = header_dependency_list();
    let n = deps.len();
    for i in 0..n
        invariant
            n == deps.len(),
            deps@ == header_dependencies(),
            facts.headers_found@.len() == 3,
            missing@ == after_clang + missing_headers(
                deps@.take(i as int),
                facts.headers_found@.take(i as int),
            ),
    {
        let ghost t = deps@.take(i + 1);
        let ghost ft = facts.headers_found@.take(i + 1);
        assert(t.drop_last() =~= deps@.take(i as int));
        assert(ft.drop_last() =~= facts.headers_found@.take(i as int));
        assert(t.last() == deps@[i as int]);
        assert(ft.last() == facts.headers_found@[i as int]);
        if !facts.headers_found[i] {
            let d = deps[i];
            assert(known_formula(d.formula@)) by {
                reveal_strlit("boost");
                reveal_strlit("libarchive");
                reveal_strlit("zstd");
            }
            push_prerequisite(&mut missing, header_prerequisite(&d));
        }
    }
    assert(deps@.take(n as int) =~= deps@);
    assert(facts.headers_found@.take(n as int) =~= facts.headers_found@);
    let ghost after_headers = missing@;
    match os {
        Os::Linux => {
            let old_clang = match facts.clang_major {
                Some(m) => m < MIN_CLANG_MAJOR,
                None => false,
            };
            if facts.clangxx_found && old_clang {
                push_prerequisite(
                    &mut missing,
                    Prerequisite {
                        name: "clang >= 16",
                        brew: None,
                        apt: Some(
                            "stock clang is too old for the C++20 MLIR sources; install clang-16 or newer (see apt.llvm.org)",
                        ),
                    },
                );
            }
            let old_libcxx = match facts.libcxx_version {
                Some(v) => v < MIN_LIBCXX_VERSION,
                None => false,
            };
            if !(facts.clangxx_found && facts.libcxx_found) {
                push_prerequisite(
                    &mut missing,
                    Prerequisite {
                        name: "libc++",
                        brew: None,
                        apt: Some("apt-get install libc++-dev libc++abi-dev"),
                    },
                );
            } else if facts.clangxx_found && old_libcxx {
                push_prerequisite(
                    &mut missing,
                    Prerequisite {
                        name: "libc++ >= 17",
                        brew: None,
                        apt: Some(
                            "libc++ 16 hard-errors on the cxx crate's C++20 concept checks; install a newer clang/libc++ (see apt.llvm.org)",
                        ),
                    },
                );
            }
            if !facts.sqlite_headers {
                push_prerequisite(
                    &mut missing,
                    Prerequisite {
                        name: "sqlite3 headers",
                        brew: None,
                        apt: Some("apt-get install libsqlite3-dev"),
                    },
                );
            }
            assert(missing@ =~= after_headers + linux_missing(*facts));
        },
        Os::MacOs => {},
    }
    assert(missing@ =~= all_missing(os, tools0, *facts));
    if missing.len() == 0 {
        Ok(())
    } else {
        Err(Error::Preflight(MissingPrerequisites::new(missing, os)))
    }
}

/// The parents of the header directories found (`None` where a dependency's
/// headers were not found), in order.
pub open spec fn include_parents(includes: Seq<Option<Seq<char>>>) -> Seq<Seq<char>>
    decreases includes.len(),
{
    if includes.len() == 0 {
        seq![]
    } else {
        let rest = include_parents(includes.drop_last());
        match includes.last() {
            Some(inc) => match path_parent(inc) {
                Some(p) => rest.push(p),
                None => rest,
            },
            None => rest,
        }
    }
}

/// The install prefixes of the dependencies, for revng's configuration: on
/// Linux none (the system's are found); on macOS the parent of each header
/// directory found (`includes`, for boost, libarchive and zstd in turn).
pub fn dependency_prefixes(os: Os, includes: &Vec<Option<String>>) -> (r: Vec<String>)
    ensures
        views(r@) == (if os == Os::Linux {
            Seq::<Seq<char>>::empty()
        } else {
            include_parents(includes@.map_values(|o: Option<String>| opt_view_of(o)))
        }),
{
    let mut r: Vec<String> = Vec::new();
    match os {
        Os::Linux => {
            assert(views(r@) =~= Seq::<Seq<char>>::empty());
            return r;
        },
        Os::MacOs => {},
    }
    let ghost all = includes@.map_values(|o: Option<String>| opt_view_of(o));
    let n = includes.len();
    for i in 0..n
        invariant
            n == includes.len(),
            all == includes@.map_values(|o: Option<String>| opt_view_of(o)),
            views(r@) == include_parents(all.take(i as int)),
    {
        let ghost t = all.take(i + 1);
        assert(t.drop_last() =~= all.take(i as int));
        assert(t.last() == opt_view_of(includes@[i as int]));
        match &includes[i] {
            Some(inc) => match parent(inc.as_str()) {
                Some(p) => {
                    let ghost before = views(r@);
                    r.push(p);
                    assert(views(r@) =~= before.push(p@));
                },
                None => {},
            },
            None => {},
        }
    }
    assert(all.take(n as int) =~= all);
    r
}

// ---------------------------------------------------------------------------
// What a report names
// ---------------------------------------------------------------------------

/// The place of a prerequisite's name in the order the preflight check
/// reports; a name it never reports comes last.
pub open spec fn report_rank(name: Seq<char>) -> int {
    if name == "clang-format"@ {
        0
    } else if name == "cmake"@ {
        1
    } else if name == "ninja"@ {
        2
    } else if name == "python3"@ {
        3
    } else if name == "clang++"@ {
        4
    } else if name == "boost headers"@ {
        5
    } else if name == "libarchive headers"@ {
        6
    } else if name == "zstd headers"@ {
        7
    } else if name == "clang >= 16"@ {
        8
    } else if name == "libc++"@ {
        9
    } else if name == "libc++ >= 17"@ {
        10
    } else if name == "sqlite3 headers"@ {
        11
    } else {
        12
    }
}

/// The names of `s` have ranks in `[lo, hi)`, strictly increasing.
pub open spec fn ranked(s: Seq<Prerequisite>, lo: int, hi: int) -> bool {
    &&& forall|i: int|
        #![trigger s[i]]
        0 <= i < s.len() ==> lo <= report_rank(s[i].name@) && report_rank(s[i].name@) < hi
    &&& forall|i: int, j: int|
        0 <= i < j < s.len() ==> report_rank(#[trigger] s[i].name@) < report_rank(#[trigger] s[j].name@)
}

proof fn lemma_literal_ranks()
    ensures
        report_rank("clang-format"@) == 0,
        report_rank("cmake"@) == 1,
        report_rank("ninja"@) == 2,
        report_rank("python3"@) == 3,
        report_rank("clang++"@) == 4,
        report_rank("boost headers"@) == 5,
        report_rank("libarchive headers"@) == 6,
        report_rank("zstd headers"@) == 7,
        report_rank("clang >= 16"@) == 8,
        report_rank("libc++"@) == 9,
        report_rank("libc++ >= 17"@) == 10,
        report_rank("sqlite3 headers"@) == 11,
        "boost"@ != "libarchive"@,
        "boost"@ != "zstd"@,
        "libarchive"@ != "zstd"@,
{
    reveal_strlit("clang-format");
    reveal_strlit("cmake");
    reveal_strlit("ninja");
    reveal_strlit("python3");
    reveal_strlit("clang++");
    reveal_strlit("boost headers");
    reveal_strlit("libarchive headers");
    reveal_strlit("zstd headers");
    reveal_strlit("clang >= 16");
    reveal_strlit("libc++");
    reveal_strlit("libc++ >= 17");
    reveal_strlit("sqlite3 headers");
    reveal_strlit("boost");
    reveal_strlit("libarchive");
    reveal_strlit("zstd");
    assert("clang-format"@.len() == 12 && "clang-format"@[0] == 'c');
    assert("cmake"@.len() == 5 && "cmake"@[0] == 'c');
    assert("ninja"@.len() == 5 && "ninja"@[0] == 'n');
    assert("python3"@.len() == 7 && "python3"@[0] == 'p');
    assert("clang++"@.len() == 7 && "clang++"@[0] == 'c');
    assert("boost headers"@.len() == 13 && "boost headers"@[0] == 'b');
    assert("libarchive headers"@.len() == 18 && "libarchive headers"@[0] == 'l');
    assert("zstd headers"@.len() == 12 && "zstd headers"@[0] == 'z');
    assert("clang >= 16"@.len() == 11 && "clang >= 16"@[0] == 'c');
    assert("libc++"@.len() == 6 && "libc++"@[0] == 'l');
    assert("libc++ >= 17"@.len() == 12 && "libc++ >= 17"@[0] == 'l');
    assert("sqlite3 headers"@.len() == 15 && "sqlite3 headers"@[0] == 's');
    assert("boost"@.len() == 5 && "boost"@[0] == 'b');
    assert("libarchive"@.len() == 10 && "libarchive"@[0] == 'l');
    assert("zstd"@.len() == 4 && "zstd"@[0] == 'z');
}

proof fn lemma_ranked_concat(a: Seq<Prerequisite>, b: Seq<Prerequisite>, lo: int, mid: int, hi: int)
    requires
        lo <= mid <= hi,
        ranked(a, lo, mid),
        ranked(b, mid, hi),
    ensures
        ranked(a + b, lo, hi),
{
    let c = a + b;
    assert forall|i: int| 0 <= i < c.len() implies lo <= report_rank(c[i].name@) && report_rank(c[i].name@) < hi by {
        if i < a.len() {
            assert(c[i] == a[i]);
            assert(lo <= report_rank(a[i].name@) < mid);
        } else {
            assert(c[i] == b[i - a.len()]);
            assert(mid <= report_rank(b[i - a.len()].name@) < hi);
        }
    }
    assert forall|i: int, j: int| 0 <= i < j < c.len() implies report_rank(#[trigger] c[i].name@)
        < report_rank(#[trigger] c[j].name@) by {
        if j < a.len() {
            assert(c[i] == a[i] && c[j] == a[j]);
            assert(report_rank(a[i].name@) < report_rank(a[j].name@));
        } else if i >= a.len() {
            assert(c[i] == b[i - a.len()] && c[j] == b[j - a.len()]);
            assert(report_rank(b[i - a.len()].name@) < report_rank(b[j - a.len()].name@));
        } else {
            assert(c[i] == a[i] && c[j] == b[j - a.len()]);
            assert(lo <= report_rank(a[i].name@) < mid);
            assert(mid <= report_rank(b[j - a.len()].name@) < hi);
        }
    }
}

proof fn lemma_absent_ranked(t: Seq<Prerequisite>, path_var: Seq<char>, files: Set<Seq<char>>, lo: int, hi: int)
    requires
        ranked(t, lo, hi),
    ensures
        ranked(absent_tools(t, path_var, files), lo, hi),
        forall|i: int|
            0 <= i < absent_tools(t, path_var, files).len() ==> exists|j: int|
                0 <= j < t.len() && #[trigger] absent_tools(t, path_var, files)[i] == t[j],
    decreases t.len(),
{
    if t.len() > 0 {
        let prior = t.drop_last();
        assert forall|i: int, j: int| 0 <= i < j < prior.len() implies report_rank(#[trigger] prior[i].name@)
            < report_rank(#[trigger] prior[j].name@) by {
            assert(prior[i] == t[i] && prior[j] == t[j]);
        }
        assert forall|i: int| 0 <= i < prior.len() implies lo <= report_rank(prior[i].name@) && report_rank(prior[i].name@) < hi by {
            assert(prior[i] == t[i]);
        }
        lemma_absent_ranked(prior, path_var, files, lo, hi);
        let rest = absent_tools(prior, path_var, files);
        let r = absent_tools(t, path_var, files);
        assert forall|i: int| 0 <= i < r.len() implies exists|j: int| 0 <= j < t.len() && #[trigger] r[i] == t[j] by {
            if i < rest.len() {
                assert(r[i] == rest[i]);
                let j = choose|j: int| 0 <= j < prior.len() && rest[i] == prior[j];
                assert(prior[j] == t[j]);
            } else {
                assert(r[i] == t[t.len() - 1]);
            }
        }
        if r.len() > rest.len() {
            assert forall|i: int, j: int| 0 <= i < j < r.len() implies report_rank(#[trigger] r[i].name@)
                < report_rank(#[trigger] r[j].name@) by {
                if j < rest.len() {
                    assert(r[i] == rest[i] && r[j] == rest[j]);
                } else {
                    assert(r[i] == rest[i]);
                    let k = choose|k: int| 0 <= k < prior.len() && rest[i] == prior[k];
                    assert(prior[k] == t[k]);
                    assert(r[j] == t[t.len() - 1]);
                    assert(report_rank(t[k].name@) < report_rank(t[t.len() - 1].name@));
                }
            }
            assert forall|i: int| 0 <= i < r.len() implies lo <= report_rank(r[i].name@) && report_rank(r[i].name@) < hi by {
                if i < rest.len() {
                    assert(r[i] == rest[i]);
                } else {
                    assert(r[i] == t[t.len() - 1]);
                }
            }
        }
    }
}

proof fn lemma_headers_ranked(found: Seq<bool>)
    requires
        found.len() == 3,
    ensures
        ranked(missing_headers(header_dependencies(), found), 5, 8),
{
    lemma_literal_ranks();
    let d = header_dependencies();
    assert(d.drop_last().drop_last().drop_last().len() == 0);
    assert(d.last() == zstd_spec());
    assert(d.drop_last().last() == libarchive());
    assert(d.drop_last().drop_last().last() == boost());
    reveal_with_fuel(missing_headers, 4);
    let m = missing_headers(d, found);
    assert(ranked(m, 5, 8));
}

proof fn lemma_linux_ranked(f: HostFacts)
    ensures
        ranked(linux_missing(f), 8, 12),
        forall|i: int, j: int|
            0 <= i < linux_missing(f).len() && 0 <= j < linux_missing(f).len() && 9 <= report_rank(
                #[trigger] linux_missing(f)[i].name@,
            ) < 11 && 9 <= report_rank(#[trigger] linux_missing(f)[j].name@) < 11 ==> i == j,
{
    lemma_literal_ranks();
}

/// The preflight report names each missing prerequisite once; it never
/// names both a missing libc++ and an old one; and on macOS it names none
/// of the checks only Linux makes (clang's and libc++'s versions, libc++,
/// the sqlite3 headers).
pub proof fn preflight_names_each_prerequisite_once(
    os: Os,
    path_var: Seq<char>,
    files: Set<Seq<char>>,
    f: HostFacts,
)
    requires
        f.headers_found@.len() == 3,
    ensures
        ({
            let m = all_missing(os, absent_tools(tool_list(), path_var, files), f);
            &&& forall|i: int, j: int| 0 <= i < j < m.len() ==> m[i].name@ != m[j].name@
            &&& forall|i: int, j: int|
                0 <= i < m.len() && 0 <= j < m.len() ==> !(m[i].name@ == "libc++"@ && m[j].name@
                    == "libc++ >= 17"@)
            &&& os == Os::MacOs ==> forall|i: int|
                0 <= i < m.len() ==> report_rank(#[trigger] m[i].name@) < 8
        }),
{
    lemma_literal_ranks();
    let tools = absent_tools(tool_list(), path_var, files);
    lemma_absent_ranked(tool_list(), path_var, files, 0, 4);
    let clang = if !f.clangxx_found || !f.clang_found {
        seq![clang_prerequisite()]
    } else {
        seq![]
    };
    assert(ranked(clang, 4, 5));
    let headers = missing_headers(header_dependencies(), f.headers_found@);
    lemma_headers_ranked(f.headers_found@);
    let linux = if os == Os::Linux {
        linux_missing(f)
    } else {
        seq![]
    };
    lemma_linux_ranked(f);
    assert(ranked(linux, 8, 12));
    lemma_ranked_concat(tools, clang, 0, 4, 5);
    lemma_ranked_concat(tools + clang, headers, 0, 5, 8);
    lemma_ranked_concat(tools + clang + headers, linux, 0, 8, 12);
    let m = all_missing(os, tools, f);
    assert(m == tools + clang + headers + linux);
    let head = tools + clang + headers;
    assert forall|i: int, j: int| 0 <= i < j < m.len() implies m[i].name@ != m[j].name@ by {
        assert(report_rank(m[i].name@) < report_rank(m[j].name@));
    }
    assert forall|i: int, j: int| 0 <= i < m.len() && 0 <= j < m.len() implies !(m[i].name@ == "libc++"@
        && m[j].name@ == "libc++ >= 17"@) by {
        if m[i].name@ == "libc++"@ && m[j].name@ == "libc++ >= 17"@ {
            assert(report_rank(m[i].name@) == 9);
            assert(report_rank(m[j].name@) == 10);
            if i < head.len() {
                assert(m[i] == head[i]);
            } else if j < head.len() {
                assert(m[j] == head[j]);
            } else {
                assert(m[i] == linux[i - head.len()]);
                assert(m[j] == linux[j - head.len()]);
            }
        }
    }
    assert forall|i: int| os == Os::MacOs && 0 <= i < m.len() implies report_rank(#[trigger] m[i].name@) < 8 by {
        assert(m == head);
        assert(m[i] == head[i]);
    }
}

} // verus!
