use revng_build::dependency::{dependencies, zstd};
use revng_build::error::Error;
use revng_build::os::Os;
use revng_build::paths::PathSet;
use revng_build::preflight::{
    HostFacts, bootstrap_compiler, dependency_prefixes, header_prerequisite, missing_tools,
    parse_clang_major, parse_libcxx_version, preflight_verdict, tools,
};
use revng_build::provision::{Cache, MissingPrerequisites, default_root, key_path, llvm_source, revng_source};
use revng_build::steps::Step;

fn argument_string(arguments: &[String]) -> String {
    arguments.join(" ")
}

#[test]
fn step_tables_guard_load_bearing_flags() {
    let cache = Cache::at("/cache/target/key".to_string());
    for os in [Os::Linux, Os::MacOs] {
        let mut found = PathSet::new();
        found.insert("/usr/bin/clang".to_string());
        found.insert("/usr/bin/clang++".to_string());
        let cc = bootstrap_compiler(os, "clang", "/usr/bin", &found).expect("bootstrap compiler");
        let cxx = bootstrap_compiler(os, "clang++", "/usr/bin", &found).expect("bootstrap compiler");
        let steps = cache.steps(os, &Vec::new(), None, &cc, &cxx);
        let names = steps.iter().map(|step| step.name).collect::<Vec<_>>();
        let expected: &[&str] = &[
            "venv",
            "python-requirements",
            "configure-llvm",
            "build-llvm",
            "install-llvm",
            "configure-revng",
            "build-revng",
            "install-revng",
        ];
        assert_eq!(names, expected);
        let step_args = |name| {
            argument_string(
                &steps
                    .iter()
                    .find(|step| step.name == name)
                    .expect("step present")
                    .args,
            )
        };
        let llvm = step_args("configure-llvm");
        assert!(llvm.contains("-DLLVM_ENABLE_DUMP=ON"));
        assert!(llvm.contains("-DLLVM_ENABLE_BINDINGS=OFF"));
        assert!(llvm.contains("-DCMAKE_INSTALL_PREFIX=/cache/target/key/llvm"));
        let revng = step_args("configure-revng");
        assert!(revng.contains("-DREVNG_SDK_BUILD=ON"));
        assert!(revng.contains("-DREVNG_BACKEND_LIBTCG=OFF"));
        assert!(revng.contains("-DREVNG_BUNDLE_TOOLCHAIN_RUNTIME=OFF"));
        assert!(revng.contains("-DREVNG_PIPEBOX_PYTHON=OFF"));
        assert!(revng.contains("-DBUILD_TESTING=OFF"));
        assert!(revng.contains("-DCMAKE_INSTALL_PREFIX=/cache/target/key/sdk"));
        match os {
            Os::Linux => {
                assert!(llvm.contains("-DLLVM_ENABLE_LIBCXX=ON"));
                assert!(!llvm.contains("-nostdinc++"));
                assert!(revng.contains("-DCMAKE_CXX_FLAGS=-stdlib=libc++"));
                assert!(!revng.contains("/cache/target/key/llvm/bin/clang++"));
                assert!(!llvm.contains("-DCMAKE_OSX_ARCHITECTURES=arm64"));
            }
            Os::MacOs => {
                assert!(revng.contains("-DCMAKE_CXX_COMPILER=/usr/bin/clang++"));
                assert!(llvm.contains("-DCMAKE_OSX_ARCHITECTURES=arm64"));
            }
        }
    }
}

#[test]
fn configure_revng_finds_dependencies_and_local_sources() {
    let cache = Cache::at("/c/k".to_string());
    let prefixes = vec!["/opt/homebrew/opt/boost".to_string(), "/usr/local".to_string()];
    let steps = cache.steps(Os::MacOs, &prefixes, Some("/src/revng".to_string()), "cc", "c++");
    let revng = &steps[5];
    assert_eq!(revng.program, "cmake");
    assert_eq!(revng.args[0], "-S");
    assert_eq!(revng.args[1], "/src/revng");
    assert!(revng
        .args
        .contains(&"-DCMAKE_PREFIX_PATH=/c/k/llvm;/opt/homebrew/opt/boost;/usr/local".to_string()));
    let llvm = &steps[2];
    assert_eq!(
        llvm.args[1],
        "/c/k/scratch/llvm-project-b93d654bc9267ca2128528583558db618ff9cc1d/llvm"
    );
    assert_eq!(steps[1].program, "/c/k/scratch/venv/bin/pip");
    assert_eq!(steps[1].args.len(), 7);
}

#[test]
fn missing_tools_reports_absent_prerequisites() {
    let none = PathSet::new();
    let missing = missing_tools("/nonexistent-path-entry", &none);
    let names = missing.iter().map(|tool| tool.name).collect::<Vec<_>>();
    assert_eq!(names, ["clang-format", "cmake", "ninja", "python3"]);

    let stubs = "/tmp/revng-build-tools-stubs";
    let mut files = PathSet::new();
    for tool in ["clang-format", "cmake", "ninja", "python3"] {
        files.insert(format!("{stubs}/{tool}"));
    }
    assert!(missing_tools(stubs, &files).is_empty());
}

#[test]
fn sources_unpack_to_name_and_commit() {
    let revng = revng_source();
    assert_eq!(
        revng.url(),
        "https://codeload.github.com/xorpse/revng/tar.gz/5ac52139ab2e70c90fd127ce265471bba41bb84c"
    );
    assert_eq!(revng.directory(), "revng-5ac52139ab2e70c90fd127ce265471bba41bb84c");
    assert_eq!(
        llvm_source().directory(),
        "llvm-project-b93d654bc9267ca2128528583558db618ff9cc1d"
    );
}

#[test]
fn cache_layout_follows_the_key() {
    assert_eq!(
        key_path("/root", "x86_64-unknown-linux-gnu", false),
        "/root/x86_64-unknown-linux-gnu/5ac52139ab2e-b93d654bc926"
    );
    assert_eq!(key_path("/root", "t", true), "/root/t/local-b93d654bc926");
    let home = Some("/home/u".to_string());
    assert_eq!(
        default_root(Os::Linux, home.clone(), None).as_deref(),
        Some("/home/u/.cache/revng-build")
    );
    assert_eq!(
        default_root(Os::Linux, home.clone(), Some("/xdg".to_string())).as_deref(),
        Some("/xdg/revng-build")
    );
    assert_eq!(
        default_root(Os::MacOs, home, Some("/xdg".to_string())).as_deref(),
        Some("/home/u/Library/Caches/revng-build")
    );
    assert_eq!(default_root(Os::Linux, None, None), None);
    assert!(matches!(
        Cache::resolve(None, None, None, Os::Linux, "t", false),
        Err(Error::NoCacheRoot)
    ));
    let cache = Cache::resolve(Some("/c".to_string()), None, None, Os::Linux, "t", false).unwrap();
    assert_eq!(cache.key(), "/c/t/5ac52139ab2e-b93d654bc926");
    assert_eq!(cache.lock(), "/c/t/5ac52139ab2e-b93d654bc926.lock");
    assert_eq!(cache.marker(), "/c/t/5ac52139ab2e-b93d654bc926/provisioned");
    assert_eq!(cache.log(), "/c/t/5ac52139ab2e-b93d654bc926/build.log");
    assert_eq!(
        cache.stale_directories(false),
        [
            "/c/t/5ac52139ab2e-b93d654bc926/llvm",
            "/c/t/5ac52139ab2e-b93d654bc926/sdk",
            "/c/t/5ac52139ab2e-b93d654bc926/scratch",
        ]
    );
    assert!(cache.stale_directories(true).is_empty());
    assert!(Cache::reusable(false, true));
    assert!(!Cache::reusable(true, true));
}

#[test]
fn a_marked_cache_without_its_toolchain_is_corrupt() {
    let cache = Cache::at("/k".to_string());
    let mut existing = PathSet::new();
    assert!(!cache.complete(&existing).unwrap());
    existing.insert("/k/provisioned".to_string());
    assert!(matches!(cache.complete(&existing), Err(Error::CorruptCache(k)) if k == "/k"));
    existing.insert("/k/llvm/bin/llvm-config".to_string());
    existing.insert("/k/sdk/lib".to_string());
    assert!(cache.complete(&existing).unwrap());
}

#[test]
fn build_steps_put_the_environment_first() {
    let cache = Cache::at("/k".to_string());
    assert_eq!(cache.tool_search_path(Some("/usr/bin:/bin".to_string())), "/k/scratch/venv/bin:/usr/bin:/bin");
    assert_eq!(cache.tool_search_path(None), "/k/scratch/venv/bin");
    assert_eq!(cache.library_search_path(Some(String::new())), "/k/llvm/lib:");
}

#[test]
fn compiler_versions_are_read_from_their_output() {
    assert_eq!(
        parse_clang_major("Ubuntu clang version 18.1.3 (1ubuntu1)\nTarget: x86_64\n"),
        Some(18)
    );
    assert_eq!(parse_clang_major("Apple clang version 15.0.0"), Some(15));
    assert_eq!(parse_clang_major("gcc version 12"), None);
    assert_eq!(
        parse_libcxx_version("#define __clang__ 1\n#define _LIBCPP_VERSION 170006\n"),
        Some(170006)
    );
    assert_eq!(parse_libcxx_version("#define __clang__ 1\n"), None);
}

#[test]
fn preflight_reports_everything_missing_in_order() {
    let facts = HostFacts {
        clangxx_found: true,
        clang_found: true,
        headers_found: vec![true, false, true],
        clang_major: Some(14),
        libcxx_found: true,
        libcxx_version: Some(160000),
        sqlite_headers: false,
    };
    let tools_missing = vec![tools()[1]];
    match preflight_verdict(Os::Linux, tools_missing, &facts) {
        Err(Error::Preflight(report)) => {
            let names = report.missing().iter().map(|p| p.name).collect::<Vec<_>>();
            assert_eq!(
                names,
                ["cmake", "libarchive headers", "clang >= 16", "libc++ >= 17", "sqlite3 headers"]
            );
            let message = report.message();
            assert!(message.starts_with("provisioning the revng SDK needs\n  cmake (apt-get install cmake)"));
            assert!(message.contains("\n  clang >= 16 (stock clang"));
        }
        _ => panic!("expected a preflight report"),
    }
    let ready = HostFacts {
        clangxx_found: true,
        clang_found: true,
        headers_found: vec![true, true, true],
        clang_major: Some(18),
        libcxx_found: true,
        libcxx_version: Some(180000),
        sqlite_headers: true,
    };
    assert!(preflight_verdict(Os::Linux, Vec::new(), &ready).is_ok());
    let no_compiler = HostFacts { clang_found: false, sqlite_headers: false, ..ready };
    match preflight_verdict(Os::MacOs, Vec::new(), &no_compiler) {
        Err(Error::Preflight(report)) => {
            assert_eq!(report.message(), "provisioning the revng SDK needs\n  clang++ (xcode-select --install)");
        }
        _ => panic!("expected a preflight report"),
    }
}

#[test]
fn header_prerequisites_name_the_package() {
    let deps = dependencies();
    assert_eq!(header_prerequisite(&deps[0]).name, "boost headers");
    assert_eq!(header_prerequisite(&deps[1]).apt, Some("apt-get install libarchive-dev"));
    assert_eq!(header_prerequisite(&zstd()).brew, Some("brew install zstd"));
    let report = MissingPrerequisites::new(vec![header_prerequisite(&zstd())], Os::MacOs);
    assert_eq!(report.message(), "provisioning the revng SDK needs\n  zstd headers (brew install zstd)");
}

#[test]
fn dependency_prefixes_are_the_include_parents_on_macos() {
    let includes = vec![Some("/opt/homebrew/opt/boost/include".to_string()), None, Some("/usr/local/include".to_string())];
    assert_eq!(
        dependency_prefixes(Os::MacOs, &includes),
        ["/opt/homebrew/opt/boost", "/usr/local"]
    );
    assert!(dependency_prefixes(Os::Linux, &includes).is_empty());
}

#[test]
fn dependency_headers_are_found_where_configured_or_installed() {
    let boost = dependencies()[0];
    let mut existing = PathSet::new();
    let (variable, directory) = boost.configured(None, Some("/b".to_string())).unwrap();
    assert_eq!(variable, "BOOST_ROOT");
    assert_eq!(directory, "/b/include");
    assert!(matches!(
        boost.check_configured(variable, directory.clone(), &existing),
        Err(Error::MissingInclude { variable, path }) if variable == "BOOST_ROOT" && path == "/b/include/boost/version.hpp"
    ));
    existing.insert("/b/include/boost/version.hpp".to_string());
    assert_eq!(boost.check_configured(variable, directory, &existing).unwrap(), "/b/include");
    assert!(boost.configured(None, None).is_none());
    assert_eq!(
        boost.wellknown_candidates(),
        [
            "/opt/homebrew/opt/boost/include",
            "/opt/homebrew/include",
            "/usr/local/opt/boost/include",
            "/usr/local/include",
        ]
    );
    existing.insert("/usr/local/include/boost/version.hpp".to_string());
    assert_eq!(boost.wellknown(&existing).as_deref(), Some("/usr/local/include"));
    assert_eq!(
        boost.discover_local(&vec!["/b/include".to_string()], &existing).as_deref(),
        Some("/b/include")
    );
    assert_eq!(boost.brew_include("/b\n", &existing).as_deref(), Some("/b/include"));
    assert_eq!(boost.brew_include("/nowhere\n", &existing), None);
}

#[test]
fn a_pinned_build_starts_afresh_and_cleans_up() {
    let cache = Cache::at("/c/t/key".to_string());
    let plan = cache.provisioning(false);
    assert!(plan.reuse_complete);
    assert_eq!(plan.lock_directory.as_deref(), Some("/c/t"));
    assert_eq!(plan.lock, "/c/t/key.lock");
    assert_eq!(plan.remove, ["/c/t/key/llvm", "/c/t/key/sdk", "/c/t/key/scratch"]);
    assert_eq!(plan.scratch, "/c/t/key/scratch");
    let sources: Vec<String> = plan.sources.iter().map(|source| source.directory()).collect();
    assert_eq!(
        sources,
        [
            "revng-5ac52139ab2e70c90fd127ce265471bba41bb84c",
            "llvm-project-b93d654bc9267ca2128528583558db618ff9cc1d",
        ]
    );
    assert!(plan.remove_scratch);
    assert_eq!(plan.marker, "/c/t/key/provisioned");
    assert_eq!(plan.marker_contents, "5ac52139ab2e70c90fd127ce265471bba41bb84c");
}

#[test]
fn local_sources_are_always_rebuilt_in_place() {
    let cache = Cache::at("/c/t/local".to_string());
    let plan = cache.provisioning(true);
    assert!(!plan.reuse_complete);
    assert!(plan.remove.is_empty());
    assert_eq!(plan.sources.len(), 1);
    assert_eq!(plan.sources[0].repository, "revng/llvm-project");
    assert!(!plan.remove_scratch);
}

#[test]
fn a_failed_step_points_at_the_log() {
    let cache = Cache::at("/k".to_string());
    let step = Step::new("build-llvm", "cmake".to_string());
    assert!(step.outcome(&cache, true).is_ok());
    assert!(matches!(
        step.outcome(&cache, false),
        Err(Error::BuildStep { step, log }) if step == "build-llvm" && log == "/k/build.log"
    ));
}

#[test]
fn local_and_pinned_builds_use_different_keys() {
    for root in ["/root", "/root/", ""] {
        assert_ne!(key_path(root, "t", true), key_path(root, "t", false));
    }
}

#[test]
fn a_preflight_report_names_each_prerequisite_once() {
    let nothing = HostFacts {
        clangxx_found: false,
        clang_found: false,
        headers_found: vec![false, false, false],
        clang_major: None,
        libcxx_found: false,
        libcxx_version: Some(1),
        sqlite_headers: false,
    };
    for os in [Os::Linux, Os::MacOs] {
        let missing = missing_tools("/nowhere", &PathSet::new());
        match preflight_verdict(os, missing, &nothing) {
            Err(Error::Preflight(report)) => {
                let names = report.missing().iter().map(|p| p.name).collect::<Vec<_>>();
                for (i, name) in names.iter().enumerate() {
                    assert!(!names[i + 1..].contains(name), "{name} twice in {names:?}");
                }
                assert!(!(names.contains(&"libc++") && names.contains(&"libc++ >= 17")));
                if os == Os::MacOs {
                    assert_eq!(names.len(), 8);
                    assert!(!names.contains(&"sqlite3 headers"));
                } else {
                    assert_eq!(names.len(), 10);
                }
            }
            _ => panic!("expected a preflight report"),
        }
    }
}
