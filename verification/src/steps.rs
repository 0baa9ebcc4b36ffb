//! The build steps that provision LLVM and the revng SDK into a cache.
use vstd::prelude::*;
use vstd::string::StringExecFns;

use crate::error::Error;
use crate::os::Os;
use crate::paths::{join, path_join};
use crate::provision::{Cache, llvm_source, llvm_spec, revng_source, revng_spec, source_directory};
use crate::text::{concat, concat3, join_strings, join_with, opt_view, views};

verus! {

/// A program run with arguments as one step of provisioning.
pub struct Step {
    /// The step's name, as the log and errors report it.
    pub name: &'static str,
    /// The program.
    pub program: String,
    /// Its arguments.
    pub args: Vec<String>,
}

/// What a step holds.
pub struct StepView {
    pub name: Seq<char>,
    pub program: Seq<char>,
    pub args: Seq<Seq<char>>,
}

/// What a step holds.
pub open spec fn step_view(s: Step) -> StepView {
    StepView { name: s.name@, program: s.program@, args: views(s.args@) }
}

/// A CMake cache definition: `-D{variable}={value}`.
pub open spec fn define_arg(variable: Seq<char>, value: Seq<char>) -> Seq<char> {
    "-D"@ + variable + "="@ + value
}

impl Step {
    /// A step that runs `program` with no arguments yet.
    pub fn new(name: &'static str, program: String) -> (r: Step)
        ensures
            step_view(r) == (StepView { name: name@, program: program@, args: seq![] }),
    {
        let r = Step { name, program, args: Vec::new() };
        assert(views(r.args@) =~= Seq::<Seq<char>>::empty());
        r
    }

    /// The step with one more argument.
    pub fn arg(self, argument: String) -> (r: Step)
        ensures
            step_view(r) == (StepView {
                args: step_view(self).args.push(argument@),
                ..step_view(self)
            }),
    {
        let mut s = self;
        let ghost before = views(s.args@);
        s.args.push(argument);
        assert(views(s.args@) =~= before.push(argument@));
        s
    }

    /// What a finished run of the step comes to: nothing when the program
    /// succeeded, otherwise `BuildStep`, naming the step and the cache's log.
    pub fn outcome(&self, cache: &Cache, succeeded: bool) -> (r: Result<(), Error>)
        ensures
            match r {
                Ok(()) => succeeded,
                Err(e) => !succeeded && (e matches Error::BuildStep { step, log } && step@ == self.name@
                    && log@ == path_join(cache.key_spec(), "build.log"@)),
            },
    {
        if succeeded {
            Ok(())
        } else {
            Err(Error::BuildStep { step: String::from_str(self.name), log: cache.log() })
        }
    }

    /// The step with one more CMake definition.
    pub fn define(self, variable: &str, value: &str) -> (r: Step)
        ensures
            step_view(r) == (StepView {
                args: step_view(self).args.push(define_arg(variable@, value@)),
                ..step_view(self)
            }),
    {
        let a = concat3("-D", variable, "=");
        self.arg(concat(a.as_str(), value))
    }
}

/// Appends `-D{variable}={value}`.
fn push_define(args: &mut Vec<String>, variable: &str, value: &str)
    ensures
        views(final(args)@) == views(old(args)@).push(define_arg(variable@, value@)),
{
    let a = concat3("-D", variable, "=");
    let ghost before = views(args@);
    let d = concat(a.as_str(), value);
    args.push(d);
    assert(views(args@) =~= before.push(define_arg(variable@, value@)));
}

/// Appends a literal argument.
fn push_arg(args: &mut Vec<String>, value: &str)
    ensures
        views(final(args)@) == views(old(args)@).push(value@),
{
    let ghost before = views(args@);
    args.push(String::from_str(value));
    assert(views(args@) =~= before.push(value@));
}

/// Appends an argument.
fn push_owned(args: &mut Vec<String>, value: String)
    ensures
        views(final(args)@) == views(old(args)@).push(value@),
{
    let ghost before = views(args@);
    let ghost v = value@;
    args.push(value);
    assert(views(args@) =~= before.push(v));
}

/// The definitions every CMake configuration gets.
pub open spec fn cmake_common(os: Os) -> Seq<Seq<char>> {
    seq![
        define_arg("CMAKE_BUILD_TYPE"@, "Release"@),
        define_arg("CMAKE_CXX_STANDARD"@, "20"@),
        define_arg("CMAKE_CXX_STANDARD_REQUIRED"@, "ON"@),
    ] + if os == Os::MacOs {
        seq![define_arg("CMAKE_OSX_ARCHITECTURES"@, "arm64"@)]
    } else {
        seq![]
    }
}

fn push_cmake_common(args: &mut Vec<String>, os: Os)
    ensures
        views(final(args)@) == views(old(args)@) + cmake_common(os),
{
    push_define(args, "CMAKE_BUILD_TYPE", "Release");
    push_define(args, "CMAKE_CXX_STANDARD", "20");
    push_define(args, "CMAKE_CXX_STANDARD_REQUIRED", "ON");
    match os {
        Os::MacOs => push_define(args, "CMAKE_OSX_ARCHITECTURES", "arm64"),
        Os::Linux => {},
    }
    assert(views(args@) =~= views(old(args)@) + cmake_common(os));
}

/// The arguments that configure LLVM.
pub open spec fn configure_llvm_args(key: Seq<char>, os: Os, cc: Seq<char>, cxx: Seq<char>) -> Seq<
    Seq<char>,
> {
    let scratch = path_join(key, "scratch"@);
    seq![
        "-S"@,
        path_join(path_join(scratch, source_directory(llvm_spec())), "llvm"@),
        "-B"@,
        path_join(scratch, "llvm-build"@),
        "-G"@,
        "Ninja"@,
        define_arg("CMAKE_INSTALL_PREFIX"@, path_join(key, "llvm"@)),
        define_arg("CMAKE_C_COMPILER"@, cc),
        define_arg("CMAKE_CXX_COMPILER"@, cxx),
        define_arg("LLVM_ENABLE_PROJECTS"@, "clang;mlir"@),
        define_arg("LLVM_TARGETS_TO_BUILD"@, "AArch64;ARM;Mips;SystemZ;X86"@),
        define_arg("BUILD_SHARED_LIBS"@, "ON"@),
        define_arg("LLVM_BUILD_LLVM_DYLIB"@, "ON"@),
        define_arg("LLVM_LINK_LLVM_DYLIB"@, "OFF"@),
        define_arg("LLVM_ENABLE_DUMP"@, "ON"@),
        define_arg("LLVM_ENABLE_BINDINGS"@, "OFF"@),
        define_arg("LLVM_ENABLE_ASSERTIONS"@, "OFF"@),
        define_arg("LLVM_TOOL_SANCOV_BUILD"@, "OFF"@),
        define_arg("LLVM_INCLUDE_TESTS"@, "OFF"@),
        define_arg("LLVM_INCLUDE_EXAMPLES"@, "OFF"@),
        define_arg("LLVM_INCLUDE_BENCHMARKS"@, "OFF"@),
    ] + cmake_common(os) + if os == Os::Linux {
        seq![
            define_arg("LLVM_ENABLE_LIBCXX"@, "ON"@),
            define_arg("CLANG_DEFAULT_CXX_STDLIB"@, "libc++"@),
            define_arg("LLVM_ENABLE_TERMINFO"@, "OFF"@),
            define_arg("LLVM_ENABLE_Z3_SOLVER"@, "OFF"@),
        ]
    } else {
        seq![]
    }
}

/// Where revng's configuration looks for packages: LLVM's prefix, then the
/// dependencies' prefixes, separated by `;`.
pub open spec fn prefix_path(key: Seq<char>, dependency_prefixes: Seq<Seq<char>>) -> Seq<char> {
    join_with(seq![path_join(key, "llvm"@)] + dependency_prefixes, ";"@)
}

/// The arguments that configure revng: from the local sources when given,
/// else from the fetched ones.
pub open spec fn configure_revng_args(
    key: Seq<char>,
    os: Os,
    dependency_prefixes: Seq<Seq<char>>,
    local: Option<Seq<char>>,
    cc: Seq<char>,
    cxx: Seq<char>,
) -> Seq<Seq<char>> {
    let scratch = path_join(key, "scratch"@);
    let llvm = path_join(key, "llvm"@);
    let source = match local {
        Some(p) => p,
        None => path_join(scratch, source_directory(revng_spec())),
    };
    seq![
        "-S"@,
        source,
        "-B"@,
        path_join(scratch, "revng-build"@),
        "-G"@,
        "Ninja"@,
        define_arg("CMAKE_INSTALL_PREFIX"@, path_join(key, "sdk"@)),
        define_arg("CMAKE_C_COMPILER"@, cc),
        define_arg("CMAKE_CXX_COMPILER"@, cxx),
        define_arg("CMAKE_PREFIX_PATH"@, prefix_path(key, dependency_prefixes)),
        define_arg("LLVM_DIR"@, path_join(llvm, "lib/cmake/llvm"@)),
        define_arg("Clang_DIR"@, path_join(llvm, "lib/cmake/clang"@)),
        define_arg("MLIR_DIR"@, path_join(llvm, "lib/cmake/mlir"@)),
        define_arg("Python3_EXECUTABLE"@, path_join(path_join(scratch, "venv"@), "bin/python"@)),
        define_arg("REVNG_SDK_BUILD"@, "ON"@),
        define_arg("REVNG_BACKEND_LIBTCG"@, "OFF"@),
        define_arg("REVNG_BUILD_RUNTIME_SUPPORT"@, "OFF"@),
        define_arg("REVNG_BUNDLE_TOOLCHAIN_RUNTIME"@, "OFF"@),
        define_arg("REVNG_PIPEBOX_PYTHON"@, "OFF"@),
        define_arg("BUILD_TESTING"@, "OFF"@),
    ] + cmake_common(os) + if os == Os::Linux {
        seq![
            define_arg("CMAKE_CXX_FLAGS"@, "-stdlib=libc++"@),
            define_arg("CMAKE_EXE_LINKER_FLAGS"@, "-stdlib=libc++"@),
            define_arg("CMAKE_SHARED_LINKER_FLAGS"@, "-stdlib=libc++"@),
        ]
    } else {
        seq![]
    }
}

/// The Python packages the revng build needs.
pub open spec fn python_requirements() -> Seq<Seq<char>> {
    seq![
        "black==26.5.1"@,
        "jinja2==3.1.6"@,
        "jsonschema==4.26.0"@,
        "pycparser==3.0"@,
        "PyYAML==6.0.3"@,
    ]
}

/// All the provisioning steps, in the order they run.
pub open spec fn provisioning_steps(
    key: Seq<char>,
    os: Os,
    dependency_prefixes: Seq<Seq<char>>,
    local: Option<Seq<char>>,
    cc: Seq<char>,
    cxx: Seq<char>,
) -> Seq<StepView> {
    let scratch = path_join(key, "scratch"@);
    let venv = path_join(scratch, "venv"@);
    let llvm_build = path_join(scratch, "llvm-build"@);
    let revng_build = path_join(scratch, "revng-build"@);
    seq![
        StepView { name: "venv"@, program: "python3"@, args: seq!["-m"@, "venv"@, venv] },
        StepView {
            name: "python-requirements"@,
            program: path_join(venv, "bin/pip"@),
            args: seq!["install"@, "--quiet"@] + python_requirements(),
        },
        StepView {
            name: "configure-llvm"@,
            program: "cmake"@,
            args: configure_llvm_args(key, os, cc, cxx),
        },
        StepView {
            name: "build-llvm"@,
            program: "cmake"@,
            args: seq!["--build"@, llvm_build, "--parallel"@],
        },
        StepView { name: "install-llvm"@, program: "cmake"@, args: seq!["--install"@, llvm_build] },
        StepView {
            name: "configure-revng"@,
            program: "cmake"@,
            args: configure_revng_args(key, os, dependency_prefixes, local, cc, cxx),
        },
        StepView {
            name: "build-revng"@,
            program: "cmake"@,
            args: seq!["--build"@, revng_build, "--parallel"@],
        },
        StepView { name: "install-revng"@, program: "cmake"@, args: seq!["--install"@, revng_build] },
    ]
}

/// Each install step installs the build tree that its build step builds,
/// which is the tree its configure step configures with `-B`: LLVM's from
/// `scratch/llvm-build`, revng's from `scratch/revng-build`, two different
/// trees; and LLVM goes to the key's `llvm`, revng to its `sdk`.
pub proof fn each_install_installs_its_own_build(
    key: Seq<char>,
    os: Os,
    dependency_prefixes: Seq<Seq<char>>,
    local: Option<Seq<char>>,
    cc: Seq<char>,
    cxx: Seq<char>,
)
    ensures
        ({
            let s = provisioning_steps(key, os, dependency_prefixes, local, cc, cxx);
            let scratch = path_join(key, "scratch"@);
            &&& s.len() == 8
            &&& s[2].name == "configure-llvm"@ && s[3].name == "build-llvm"@ && s[4].name == "install-llvm"@
            &&& s[5].name == "configure-revng"@ && s[6].name == "build-revng"@ && s[7].name
                == "install-revng"@
            &&& s[2].program == "cmake"@ && s[3].program == "cmake"@ && s[4].program == "cmake"@
            &&& s[5].program == "cmake"@ && s[6].program == "cmake"@ && s[7].program == "cmake"@
            &&& s[2].args[2] == "-B"@ && s[2].args[3] == path_join(scratch, "llvm-build"@)
            &&& s[3].args[0] == "--build"@ && s[3].args[1] == s[2].args[3]
            &&& s[4].args == seq!["--install"@, s[3].args[1]]
            &&& s[5].args[2] == "-B"@ && s[5].args[3] == path_join(scratch, "revng-build"@)
            &&& s[6].args[0] == "--build"@ && s[6].args[1] == s[5].args[3]
            &&& s[7].args == seq!["--install"@, s[6].args[1]]
            &&& s[4].args[1] != s[7].args[1]
            &&& s[2].args[6] == define_arg("CMAKE_INSTALL_PREFIX"@, path_join(key, "llvm"@))
            &&& s[5].args[6] == define_arg("CMAKE_INSTALL_PREFIX"@, path_join(key, "sdk"@))
        }),
{
    reveal_strlit("llvm-build");
    reveal_strlit("revng-build");
    let scratch = path_join(key, "scratch"@);
    assert(path_join(scratch, "llvm-build"@).len() != path_join(scratch, "revng-build"@).len());
}

impl Cache {
    fn configure_llvm(&self, os: Os, cc: &str, cxx: &str) -> (r: Step)
        ensures
            step_view(r) == (StepView {
                name: "configure-llvm"@,
                program: "cmake"@,
                args: configure_llvm_args(self.key_spec(), os, cc@, cxx@),
            }),
    {
        let scratch = self.scratch();
        let mut args: Vec<String> = Vec::new();
        push_arg(&mut args, "-S");
        let dir = llvm_source().directory();
        push_owned(&mut args, join(join(scratch.as_str(), dir.as_str()).as_str(), "llvm"));
        push_arg(&mut args, "-B");
        push_owned(&mut args, join(scratch.as_str(), "llvm-build"));
        push_arg(&mut args, "-G");
        push_arg(&mut args, "Ninja");
        let ghost head = views(args@);
        push_define(&mut args, "CMAKE_INSTALL_PREFIX", self.llvm().as_str());
        push_define(&mut args, "CMAKE_C_COMPILER", cc);
        push_define(&mut args, "CMAKE_CXX_COMPILER", cxx);
        push_define(&mut args, "LLVM_ENABLE_PROJECTS", "clang;mlir");
        push_define(&mut args, "LLVM_TARGETS_TO_BUILD", "AArch64;ARM;Mips;SystemZ;X86");
        push_define(&mut args, "BUILD_SHARED_LIBS", "ON");
        push_define(&mut args, "LLVM_BUILD_LLVM_DYLIB", "ON");
        push_define(&mut args, "LLVM_LINK_LLVM_DYLIB", "OFF");
        push_define(&mut args, "LLVM_ENABLE_DUMP", "ON");
        push_define(&mut args, "LLVM_ENABLE_BINDINGS", "OFF");
        push_define(&mut args, "LLVM_ENABLE_ASSERTIONS", "OFF");
        push_define(&mut args, "LLVM_TOOL_SANCOV_BUILD", "OFF");
        push_define(&mut args, "LLVM_INCLUDE_TESTS", "OFF");
        push_define(&mut args, "LLVM_INCLUDE_EXAMPLES", "OFF");
        push_define(&mut args, "LLVM_INCLUDE_BENCHMARKS", "OFF");
        let ghost body = views(args@);
        push_cmake_common(&mut args, os);
        let ghost common = views(args@);
        match os {
            Os::Linux => {
                push_define(&mut args, "LLVM_ENABLE_LIBCXX", "ON");
                push_define(&mut args, "CLANG_DEFAULT_CXX_STDLIB", "libc++");
                push_define(&mut args, "LLVM_ENABLE_TERMINFO", "OFF");
                push_define(&mut args, "LLVM_ENABLE_Z3_SOLVER", "OFF");
            },
            Os::MacOs => {},
        }
        assert(views(args@) =~= configure_llvm_args(self.key_spec(), os, cc@, cxx@));
        let r = Step { name: "configure-llvm", program: String::from_str("cmake"), args };
        r
    }

    fn configure_revng(
        &self,
        os: Os,
        dependency_prefixes: &Vec<String>,
        local: Option<String>,
        cc: &str,
        cxx: &str,
    ) -> (r: Step)
        ensures
            step_view(r) == (StepView {
                name: "configure-revng"@,
                program: "cmake"@,
                args: configure_revng_args(
                    self.key_spec(),
                    os,
                    views(dependency_prefixes@),
                    opt_view(local),
                    cc@,
                    cxx@,
                ),
            }),
    {
        let scratch = self.scratch();
        let llvm = self.llvm();
        let mut prefixes: Vec<String> = Vec::new();
        prefixes.push(self.llvm());
        let n = dependency_prefixes.len();
        for i in 0..n
            invariant
                n == dependency_prefixes.len(),
                views(prefixes@) == seq![path_join(self.key_spec(), "llvm"@)] + views(
                    dependency_prefixes@,
                ).take(i as int),
        {
            let ghost before = views(prefixes@);
            prefixes.push(dependency_prefixes[i].clone());
            assert(views(prefixes@) =~= before.push(dependency_prefixes@[i as int]@));
            assert(views(dependency_prefixes@).take(i + 1) =~= views(dependency_prefixes@).take(
                i as int,
            ).push(dependency_prefixes@[i as int]@));
        }
        assert(views(dependency_prefixes@).take(n as int) =~= views(dependency_prefixes@));
        let prefix_path = join_strings(&prefixes, ";");
        let mut args: Vec<String> = Vec::new();
        push_arg(&mut args, "-S");
        let source = match local {
            Some(p) => p,
            None => join(scratch.as_str(), revng_source().directory().as_str()),
        };
        push_owned(&mut args, source);
        push_arg(&mut args, "-B");
        push_owned(&mut args, join(scratch.as_str(), "revng-build"));
        push_arg(&mut args, "-G");
        push_arg(&mut args, "Ninja");
        let ghost head = views(args@);
        push_define(&mut args, "CMAKE_INSTALL_PREFIX", self.sdk().as_str());
        push_define(&mut args, "CMAKE_C_COMPILER", cc);
        push_define(&mut args, "CMAKE_CXX_COMPILER", cxx);
        push_define(&mut args, "CMAKE_PREFIX_PATH", prefix_path.as_str());
        push_define(&mut args, "LLVM_DIR", join(llvm.as_str(), "lib/cmake/llvm").as_str());
        push_define(&mut args, "Clang_DIR", join(llvm.as_str(), "lib/cmake/clang").as_str());
        push_define(&mut args, "MLIR_DIR", join(llvm.as_str(), "lib/cmake/mlir").as_str());
        let venv = join(scratch.as_str(), "venv");
        push_define(&mut args, "Python3_EXECUTABLE", join(venv.as_str(), "bin/python").as_str());
        push_define(&mut args, "REVNG_SDK_BUILD", "ON");
        push_define(&mut args, "REVNG_BACKEND_LIBTCG", "OFF");
        push_define(&mut args, "REVNG_BUILD_RUNTIME_SUPPORT", "OFF");
        push_define(&mut args, "REVNG_BUNDLE_TOOLCHAIN_RUNTIME", "OFF");
        push_define(&mut args, "REVNG_PIPEBOX_PYTHON", "OFF");
        push_define(&mut args, "BUILD_TESTING", "OFF");
        push_cmake_common(&mut args, os);
        match os {
            Os::Linux => {
                push_define(&mut args, "CMAKE_CXX_FLAGS", "-stdlib=libc++");
                push_define(&mut args, "CMAKE_EXE_LINKER_FLAGS", "-stdlib=libc++");
                push_define(&mut args, "CMAKE_SHARED_LINKER_FLAGS", "-stdlib=libc++");
            },
            Os::MacOs => {},
        }
        assert(views(args@) =~= configure_revng_args(
            self.key_spec(),
            os,
            views(dependency_prefixes@),
            opt_view(local),
            cc@,
            cxx@,
        ));
        Step { name: "configure-revng", program: String::from_str("cmake"), args }
    }

    /// The steps that provision the cache, in order: a Python environment and
    /// its packages, then configuring, building and installing LLVM, then the
    /// same for revng. `cc` and `cxx` are the bootstrap compilers;
    /// `dependency_prefixes` are where revng's configuration finds its
    /// dependencies; `local` names local revng sources.
    pub fn steps(
        &self,
        os: Os,
        dependency_prefixes: &Vec<String>,
        local: Option<String>,
        cc: &str,
        cxx: &str,
    ) -> (r: Vec<Step>)
        ensures
            r@.map_values(|s: Step| step_view(s)) == provisioning_steps(
                self.key_spec(),
                os,
                views(dependency_prefixes@),
                opt_view(local),
                cc@,
                cxx@,
            ),
    {
        let scratch = self.scratch();
        let venv = join(scratch.as_str(), "venv");
        let llvm_build = join(scratch.as_str(), "llvm-build");
        let revng_build = join(scratch.as_str(), "revng-build");

        let venv_step = Step::new("venv", String::from_str("python3")).arg(String::from_str("-m")).arg(
            String::from_str("venv"),
        ).arg(venv.clone());

        let mut pip = Step::new("python-requirements", join(venv.as_str(), "bin/pip")).arg(
            String::from_str("install"),
        ).arg(String::from_str("--quiet"));
        pip = pip.arg(String::from_str("black==26.5.1"));
        pip = pip.arg(String::from_str("jinja2==3.1.6"));
        pip = pip.arg(String::from_str("jsonschema==4.26.0"));
        pip = pip.arg(String::from_str("pycparser==3.0"));
        pip = pip.arg(String::from_str("PyYAML==6.0.3"));
        assert(step_view(pip).args =~= seq!["install"@, "--quiet"@] + python_requirements());

        let configure_llvm = self.configure_llvm(os, cc, cxx);
        let build_llvm = Step::new("build-llvm", String::from_str("cmake")).arg(
            String::from_str("--build"),
        ).arg(llvm_build.clone()).arg(String::from_str("--parallel"));
        let install_llvm = Step::new("install-llvm", String::from_str("cmake")).arg(
            String::from_str("--install"),
        ).arg(llvm_build);
        let configure_revng = self.configure_revng(os, dependency_prefixes, local, cc, cxx);
        let build_revng = Step::new("build-revng", String::from_str("cmake")).arg(
            String::from_str("--build"),
        ).arg(revng_build.clone()).arg(String::from_str("--parallel"));
        let install_revng = Step::new("install-revng", String::from_str("cmake")).arg(
            String::from_str("--install"),
        ).arg(revng_build);
        assert(step_view(venv_step).args =~= seq!["-m"@, "venv"@, venv@]);
        assert(step_view(build_llvm).args =~= seq!["--build"@, llvm_build@, "--parallel"@]);
        assert(step_view(install_llvm).args =~= seq!["--install"@, llvm_build@]);
        assert(step_view(build_revng).args =~= seq!["--build"@, revng_build@, "--parallel"@]);
        assert(step_view(install_revng).args =~= seq!["--install"@, revng_build@]);

        let r = vec![
            venv_step,
            pip,
            configure_llvm,
            build_llvm,
            install_llvm,
            configure_revng,
            build_revng,
            install_revng,
        ];
        assert(r@.map_values(|s: Step| step_view(s)) =~= provisioning_steps(
            self.key_spec(),
            os,
            views(dependency_prefixes@),
            opt_view(local),
            cc@,
            cxx@,
        ));
        r
    }
}

} // verus!
