//! The C++ libraries whose headers the SDK's headers include, and where their
//! headers are found.
use vstd::prelude::*;
use vstd::string::StringExecFns;

use crate::error::Error;
use crate::paths::{PathSet, join, path_join};
use crate::text::{chars_of, concat, opt_view, string_of, trim, trim_exec, views};

verus! {

/// A library the SDK's headers depend on.
#[derive(Clone, Copy, Debug)]
pub struct Dependency {
    /// Its Homebrew formula.
    pub formula: &'static str,
    /// The variable that names its header directory.
    pub includedir: &'static str,
    /// The variable that names its install prefix.
    pub root: &'static str,
    /// Its pkg-config package, if it has one.
    pub pkg_config: Option<&'static str>,
    /// A header that its header directory holds.
    pub marker: &'static str,
}

/// Boost.
pub open spec fn boost() -> Dependency {
    Dependency {
        formula: "boost",
        includedir: "BOOST_INCLUDEDIR",
        root: "BOOST_ROOT",
        pkg_config: None,
        marker: "boost/version.hpp",
    }
}

/// libarchive.
pub open spec fn libarchive() -> Dependency {
    Dependency {
        formula: "libarchive",
        includedir: "LIBARCHIVE_INCLUDEDIR",
        root: "LIBARCHIVE_ROOT",
        pkg_config: Some("libarchive"),
        marker: "archive.h",
    }
}

/// zstd, which only provisioning needs.
pub open spec fn zstd_spec() -> Dependency {
    Dependency {
        formula: "zstd",
        includedir: "ZSTD_INCLUDEDIR",
        root: "ZSTD_ROOT",
        pkg_config: Some("libzstd"),
        marker: "zstd.h",
    }
}

/// The libraries a consumer's C++ code needs the headers of.
pub fn dependencies() -> (r: Vec<Dependency>)
    ensures
        r@ == seq![boost(), libarchive()],
{
    let r = vec![
        Dependency {
            formula: "boost",
            includedir: "BOOST_INCLUDEDIR",
            root: "BOOST_ROOT",
            pkg_config: None,
            marker: "boost/version.hpp",
        },
        Dependency {
            formula: "libarchive",
            includedir: "LIBARCHIVE_INCLUDEDIR",
            root: "LIBARCHIVE_ROOT",
            pkg_config: Some("libarchive"),
            marker: "archive.h",
        },
    ];
    assert(r@ =~= seq![boost(), libarchive()]);
    r
}

/// zstd, whose headers building the SDK needs.
pub fn zstd() -> (r: Dependency)
    ensures
        r == zstd_spec(),
{
    Dependency {
        formula: "zstd",
        includedir: "ZSTD_INCLUDEDIR",
        root: "ZSTD_ROOT",
        pkg_config: Some("libzstd"),
        marker: "zstd.h",
    }
}

/// The directory `dir` holds the dependency's marker header.
pub open spec fn provides(d: Dependency, dir: Seq<char>, existing: Set<Seq<char>>) -> bool {
    existing.contains(path_join(dir, d.marker@))
}

/// The header directory that the environment names, and the variable that
/// names it: the include variable, else the root variable's `include`.
pub open spec fn configured_directory(
    d: Dependency,
    includedir_value: Option<Seq<char>>,
    root_value: Option<Seq<char>>,
) -> Option<(Seq<char>, Seq<char>)> {
    match includedir_value {
        Some(dir) => Some((d.includedir@, dir)),
        None => match root_value {
            Some(root) => Some((d.root@, path_join(root, "include"@))),
            None => None,
        },
    }
}

/// The include variable wins: when it is set, the configured directory is
/// its value, named by the include variable, whatever the root variable
/// holds. The root variable counts only when the include variable is unset:
/// then its `include` directory is configured, named by the root variable,
/// and with neither set nothing is.
pub proof fn the_include_variable_wins(
    d: Dependency,
    includedir_value: Option<Seq<char>>,
    root_value: Option<Seq<char>>,
    other_root: Option<Seq<char>>,
)
    ensures
        includedir_value matches Some(dir) ==> configured_directory(d, includedir_value, root_value) == Some(
            (d.includedir@, dir),
        ),
        includedir_value is Some ==> configured_directory(d, includedir_value, root_value)
            == configured_directory(d, includedir_value, other_root),
        includedir_value is None && root_value is Some ==> configured_directory(d, includedir_value, root_value)
            == Some((d.root@, path_join(root_value->0, "include"@))),
        includedir_value is None && root_value is None ==> configured_directory(
            d,
            includedir_value,
            root_value,
        ) is None,
{
}

/// The first of `dirs` that provides the dependency.
pub open spec fn first_providing(d: Dependency, dirs: Seq<Seq<char>>, existing: Set<Seq<char>>) -> Option<
    Seq<char>,
>
    decreases dirs.len(),
{
    if dirs.len() == 0 {
        None
    } else if provides(d, dirs[0], existing) {
        Some(dirs[0])
    } else {
        first_providing(d, dirs.drop_first(), existing)
    }
}

/// The directories where Homebrew installs headers, in the order searched.
pub open spec fn wellknown_directories(d: Dependency) -> Seq<Seq<char>> {
    seq![
        "/opt/homebrew/opt/"@ + d.formula@ + "/include"@,
        "/opt/homebrew/include"@,
        "/usr/local/opt/"@ + d.formula@ + "/include"@,
        "/usr/local/include"@,
    ]
}

impl Dependency {
    /// The marker header's path in `directory`.
    pub fn marker_in(&self, directory: &str) -> (r: String)
        ensures
            r@ == path_join(directory@, self.marker@),
    {
        join(directory, self.marker)
    }

    /// Whether `directory` holds the marker header (`existing` holds the
    /// marker paths that exist).
    pub fn provided_by(&self, directory: &str, existing: &PathSet) -> (r: bool)
        ensures
            r == provides(*self, directory@, existing@),
    {
        existing.contains(&self.marker_in(directory))
    }

    /// The header directory named by the environment (the values of the
    /// include and root variables), with the variable that names it.
    pub fn configured(&self, includedir_value: Option<String>, root_value: Option<String>) -> (r:
        Option<(&'static str, String)>)
        ensures
            match r {
                Some((v, d)) => configured_directory(
                    *self,
                    opt_view(includedir_value),
                    opt_view(root_value),
                ) == Some((v@, d@)),
                None => configured_directory(
                    *self,
                    opt_view(includedir_value),
                    opt_view(root_value),
                ) is None,
            },
    {
        match includedir_value {
            Some(dir) => Some((self.includedir, dir)),
            None => match root_value {
                Some(root) => Some((self.root, join(root.as_str(), "include"))),
                None => None,
            },
        }
    }

    /// Checks a header directory the environment named: it must hold the
    /// marker header, or the error names the variable and the marker's path.
    pub fn check_configured(&self, variable: &str, directory: String, existing: &PathSet) -> (r:
        Result<String, Error>)
        ensures
            match r {
                Ok(d) => d@ == directory@ && provides(*self, directory@, existing@),
                Err(e) => !provides(*self, directory@, existing@) && (e matches Error::MissingInclude {
                    variable: v,
                    path: p,
                } && v@ == variable@ && p@ == path_join(directory@, self.marker@)),
            },
    {
        if self.provided_by(directory.as_str(), existing) {
            Ok(directory)
        } else {
            Err(
                Error::MissingInclude {
                    variable: String::from_str(variable),
                    path: self.marker_in(directory.as_str()),
                },
            )
        }
    }

    /// The first of `dirs` that holds the marker header.
    pub fn first_provided(&self, dirs: &Vec<String>, existing: &PathSet) -> (r: Option<String>)
        ensures
            match r {
                Some(d) => first_providing(*self, views(dirs@), existing@) == Some(d@),
                None => first_providing(*self, views(dirs@), existing@) is None,
            },
    {
        let n = dirs.len();
        let ghost all = views(dirs@);
        assert(all.skip(0) =~= all);
        for i in 0..n
            invariant
                n == dirs.len(),
                all == views(dirs@),
                first_providing(*self, all, existing@) == first_providing(
                    *self,
                    all.skip(i as int),
                    existing@,
                ),
        {
            assert(all.skip(i as int)[0] == dirs@[i as int]@);
            assert(all.skip(i as int).drop_first() =~= all.skip(i + 1));
            if self.provided_by(dirs[i].as_str(), existing) {
                return Some(dirs[i].clone());
            }
        }
        assert(all.skip(n as int) =~= Seq::<Seq<char>>::empty());
        None
    }

    /// The directories where Homebrew installs the headers, in search order.
    pub fn wellknown_candidates(&self) -> (r: Vec<String>)
        ensures
            views(r@) == wellknown_directories(*self),
    {
        let mut r: Vec<String> = Vec::new();
        let a = concat("/opt/homebrew/opt/", self.formula);
        r.push(concat(a.as_str(), "/include"));
        r.push(String::from_str("/opt/homebrew/include"));
        let b = concat("/usr/local/opt/", self.formula);
        r.push(concat(b.as_str(), "/include"));
        r.push(String::from_str("/usr/local/include"));
        assert(views(r@) =~= wellknown_directories(*self));
        r
    }

    /// The first of Homebrew's header directories that holds the headers.
    pub fn wellknown(&self, existing: &PathSet) -> (r: Option<String>)
        ensures
            match r {
                Some(d) => first_providing(*self, wellknown_directories(*self), existing@) == Some(d@),
                None => first_providing(*self, wellknown_directories(*self), existing@) is None,
            },
    {
        self.first_provided(&self.wellknown_candidates(), existing)
    }

    /// The header directory found without asking Homebrew: the first of the
    /// pkg-config include paths that holds the headers, else the first
    /// well-known directory that does.
    pub fn discover_local(&self, pkg_config_includes: &Vec<String>, existing: &PathSet) -> (r:
        Option<String>)
        ensures
            ({
                let found = match first_providing(*self, views(pkg_config_includes@), existing@) {
                    Some(d) => Some(d),
                    None => first_providing(*self, wellknown_directories(*self), existing@),
                };
                match r {
                    Some(d) => found == Some(d@),
                    None => found is None,
                }
            }),
    {
        match self.first_provided(pkg_config_includes, existing) {
            Some(d) => Some(d),
            None => self.wellknown(existing),
        }
    }

    /// The header directory under the prefix `brew --prefix` printed, if it
    /// holds the headers.
    pub fn brew_include(&self, brew_output: &str, existing: &PathSet) -> (r: Option<String>)
        ensures
            ({
                let dir = path_join(trim(brew_output@), "include"@);
                match r {
                    Some(d) => d@ == dir && provides(*self, dir, existing@),
                    None => !provides(*self, dir, existing@),
                }
            }),
    {
        let prefix = string_of(&trim_exec(&chars_of(brew_output)));
        let dir = join(prefix.as_str(), "include");
        if self.provided_by(dir.as_str(), existing) {
            Some(dir)
        } else {
            None
        }
    }
}

} // verus!
