//! Configuring a `cc::Build` that compiles C++ against the SDK.
use vstd::prelude::*;

use crate::paths::path_join;
use crate::sdk::Sdk;
use crate::discovery::compiler_path;
use crate::text::{opt_view, views};

verus! {

#[verifier::external_type_specification]
#[verifier::external_body]
pub struct ExBuild(cc::Build);

/// The header directories a `cc::Build` passes with `-I`, in order.
pub uninterp spec fn build_include_dirs(b: cc::Build) -> Seq<Seq<char>>;

/// The flags a `cc::Build` always passes, in order.
pub uninterp spec fn build_flags(b: cc::Build) -> Seq<Seq<char>>;

/// The compiler a `cc::Build` was told to use, if any.
pub uninterp spec fn build_compiler(b: cc::Build) -> Option<Seq<char>>;

/// Whether a `cc::Build` compiles C++.
pub uninterp spec fn build_cpp(b: cc::Build) -> bool;

/// The warnings setting of a `cc::Build`, if set.
pub uninterp spec fn build_warnings(b: cc::Build) -> Option<bool>;

/// Calls `cc::Build::includes` with the one directory `dir`, which appends
/// it to the header directories and changes nothing else.
#[verifier::external_body]
fn add_include_dir(b: &mut cc::Build, dir: &str)
    ensures
        build_include_dirs(*final(b)) == build_include_dirs(*old(b)).push(dir@),
        build_flags(*final(b)) == build_flags(*old(b)),
        build_compiler(*final(b)) == build_compiler(*old(b)),
        build_cpp(*final(b)) == build_cpp(*old(b)),
        build_warnings(*final(b)) == build_warnings(*old(b)),
{
    b.includes([dir]);
}

/// Calls `cc::Build::flag`, which appends `flag` to the flags and changes
/// nothing else.
#[verifier::external_body]
fn add_flag(b: &mut cc::Build, flag: &str)
    ensures
        build_flags(*final(b)) == build_flags(*old(b)).push(flag@),
        build_include_dirs(*final(b)) == build_include_dirs(*old(b)),
        build_compiler(*final(b)) == build_compiler(*old(b)),
        build_cpp(*final(b)) == build_cpp(*old(b)),
        build_warnings(*final(b)) == build_warnings(*old(b)),
{
    b.flag(flag);
}

/// Calls `cc::Build::compiler`, which sets the compiler and changes nothing
/// else.
#[verifier::external_body]
fn set_compiler(b: &mut cc::Build, compiler: &str)
    ensures
        build_compiler(*final(b)) == Some(compiler@),
        build_include_dirs(*final(b)) == build_include_dirs(*old(b)),
        build_flags(*final(b)) == build_flags(*old(b)),
        build_cpp(*final(b)) == build_cpp(*old(b)),
        build_warnings(*final(b)) == build_warnings(*old(b)),
{
    b.compiler(compiler);
}

/// Calls `cc::Build::cpp`, which sets whether C++ is compiled and changes
/// nothing else that is named here.
#[verifier::external_body]
fn set_cpp(b: &mut cc::Build, cpp: bool)
    ensures
        build_cpp(*final(b)) == cpp,
        build_include_dirs(*final(b)) == build_include_dirs(*old(b)),
        build_flags(*final(b)) == build_flags(*old(b)),
        build_compiler(*final(b)) == build_compiler(*old(b)),
        build_warnings(*final(b)) == build_warnings(*old(b)),
{
    b.cpp(cpp);
}

/// Calls `cc::Build::warnings`, which sets the warnings (and the extra
/// warnings, not named here) and changes nothing else that is named here.
#[verifier::external_body]
fn set_warnings(b: &mut cc::Build, warnings: bool)
    ensures
        build_warnings(*final(b)) == Some(warnings),
        build_include_dirs(*final(b)) == build_include_dirs(*old(b)),
        build_flags(*final(b)) == build_flags(*old(b)),
        build_compiler(*final(b)) == build_compiler(*old(b)),
        build_cpp(*final(b)) == build_cpp(*old(b)),
{
    b.warnings(warnings);
}

/// The flags of C++ code built against the SDK.
pub open spec fn cxx_flags() -> Seq<Seq<char>> {
    seq!["-std=c++20"@, "-stdlib=libc++"@, "-fno-rtti"@]
}

impl Sdk {
    /// Configures `build` to compile C++ against the SDK: its compiler (see
    /// `compiler`; `located` is where the search path holds `clang++`), C++
    /// without warnings, the SDK's and LLVM's headers then the dependencies',
    /// and the SDK's C++ flags.
    pub fn configure_cxx(&self, build: &mut cc::Build, located: Option<String>)
        ensures
            build_compiler(*final(build)) == Some(compiler_path(self@.os, opt_view(located))),
            build_cpp(*final(build)),
            build_warnings(*final(build)) == Some(false),
            build_include_dirs(*final(build)) == build_include_dirs(*old(build)) + seq![
                path_join(self@.prefix, "include"@),
                self@.llvm_include,
            ] + self@.dependency_includes,
            build_flags(*final(build)) == build_flags(*old(build)) + cxx_flags(),
    {
        let compiler = self.compiler(located);
        set_compiler(build, compiler.as_str());
        set_cpp(build, true);
        set_warnings(build, false);
        let headers = crate::paths::join(self.prefix(), "include");
        add_include_dir(build, headers.as_str());
        add_include_dir(build, self.llvm_include());
        let ghost base = build_include_dirs(*build);
        let deps = self.dependency_includes();
        let n = deps.len();
        for i in 0..n
            invariant
                n == deps.len(),
                views(deps@) == self@.dependency_includes,
                build_include_dirs(*build) == base + views(deps@).take(i as int),
                build_compiler(*build) == Some(compiler_path(self@.os, opt_view(located))),
                build_cpp(*build),
                build_warnings(*build) == Some(false),
                build_flags(*build) == build_flags(*old(build)),
        {
            add_include_dir(build, deps[i].as_str());
            assert(views(deps@).take(i + 1) =~= views(deps@).take(i as int).push(deps@[i as int]@));
        }
        assert(views(deps@).take(n as int) =~= views(deps@));
        add_flag(build, "-std=c++20");
        add_flag(build, "-stdlib=libc++");
        add_flag(build, "-fno-rtti");
        assert(build_flags(*build) =~= build_flags(*old(build)) + cxx_flags());
        assert(build_include_dirs(*build) =~= build_include_dirs(*old(build)) + seq![
            path_join(self@.prefix, "include"@),
            self@.llvm_include,
        ] + self@.dependency_includes);
    }
}

} // verus!
