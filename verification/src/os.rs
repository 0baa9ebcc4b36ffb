//! The two operating systems revng supports, and what differs between them.
use vstd::prelude::*;

use crate::text::{chars_of, concat3, contains_exec, ends_with, has_infix, has_suffix};

verus! {

/// An operating system that revng supports.
#[derive(Clone, Copy, Debug, PartialEq, Eq, Structural)]
pub enum Os {
    Linux,
    MacOs,
}

/// The file name extension of a shared library.
pub open spec fn extension_of(os: Os) -> Seq<char> {
    match os {
        Os::Linux => ".so"@,
        Os::MacOs => ".dylib"@,
    }
}

/// The file name of the shared library `stem`.
pub open spec fn library_name(os: Os, stem: Seq<char>) -> Seq<char> {
    "lib"@ + stem + extension_of(os)
}

/// How the dynamic loader spells the directory of the object it loads.
pub open spec fn origin_of(os: Os) -> Seq<char> {
    match os {
        Os::Linux => "$ORIGIN"@,
        Os::MacOs => "@loader_path"@,
    }
}

/// A file name that names a shared library: on Linux one that ends in `.so`
/// or holds `.so.` (a versioned library), on macOS one that ends in `.dylib`.
pub open spec fn names_dynamic_library(os: Os, name: Seq<char>) -> bool {
    match os {
        Os::Linux => has_suffix(name, ".so"@) || has_infix(name, ".so."@),
        Os::MacOs => has_suffix(name, ".dylib"@),
    }
}

impl Os {
    /// The file name extension of a shared library.
    pub fn extension(self) -> (r: &'static str)
        ensures
            r@ == extension_of(self),
    {
        match self {
            Os::Linux => ".so",
            Os::MacOs => ".dylib",
        }
    }

    /// The file name of the shared library `stem`: `lib{stem}{extension}`.
    pub fn library(self, stem: &str) -> (r: String)
        ensures
            r@ == library_name(self, stem@),
    {
        concat3("lib", stem, self.extension())
    }

    /// The loader's name for the directory of the object being loaded.
    pub fn loader_origin(self) -> (r: &'static str)
        ensures
            r@ == origin_of(self),
    {
        match self {
            Os::Linux => "$ORIGIN",
            Os::MacOs => "@loader_path",
        }
    }

    /// Whether the file name `name` names a shared library on this system.
    pub fn is_dynamic_library(self, name: &str) -> (r: bool)
        ensures
            r == names_dynamic_library(self, name@),
    {
        let n = chars_of(name);
        match self {
            Os::Linux => ends_with(&n, &chars_of(".so")) || contains_exec(&n, &chars_of(".so.")),
            Os::MacOs => ends_with(&n, &chars_of(".dylib")),
        }
    }
}

} // verus!
