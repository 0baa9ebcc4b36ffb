use revng_build::discovery::{
    CheckedInstall, LLVM_MAJOR, candidates, check_install, compiler_for, llvm_is_componentised, lookup,
    parse_llvm_config, portable_requested, printed_path, read_llvm_config, required_paths_of, rerun_directives,
    runtime_libraries, runtime_library, select_install,
};
use revng_build::error::Error;
use revng_build::os::Os;
use revng_build::paths::{PathSet, join};
use revng_build::sdk::{Sdk, SdkParts};

const ROOT: &str = "/fixture/root";

fn at(relative: &str) -> String {
    format!("{ROOT}/{relative}")
}

fn present(files: &[&str]) -> PathSet {
    let mut set = PathSet::new();
    for file in files {
        set.insert(at(file));
    }
    set
}

fn sdk(os: Os, component_llvm: bool, link_files: Vec<String>) -> Sdk {
    Sdk::from_parts(SdkParts {
        install: checked(&at("sdk"), &at("llvm"), os),
        llvm_include: at("llvm/include"),
        llvm_lib: at("llvm/lib"),
        llvm_major: 16,
        component_llvm,
        link_files,
        dependency_includes: Vec::new(),
        portable: false,
    })
}

/// The install at `prefix` and `llvm`, checked with every required path
/// present.
fn checked(prefix: &str, llvm: &str, os: Os) -> CheckedInstall {
    let compiler = compiler_for(os, None);
    let mut existing = PathSet::new();
    for path in required_paths_of(prefix, llvm, os, &compiler) {
        existing.insert(path);
    }
    check_install(prefix, llvm, os, &compiler, &existing).ok().unwrap()
}

fn analyses(names: &[&str]) -> Vec<String> {
    names.iter().map(|name| name.to_string()).collect()
}

#[test]
fn macos_link_directives() {
    let existing = present(&[
        "sdk/lib/librevngPipelineC.dylib",
        "sdk/lib/librevngLiftReference.dylib",
        "sdk/lib/librevngFunctionCallIdentification.dylib",
        "sdk/lib/librevngValueMaterializer.dylib",
        "sdk/lib/revng/analyses/librevngB.dylib",
        "sdk/lib/revng/analyses/librevngA.dylib",
        "llvm/lib/libLLVMCore.dylib",
        "llvm/lib/libMLIRCAPIIR.dylib",
    ]);
    let sdk = sdk(Os::MacOs, true, Vec::new());
    let directives =
        sdk.link_directives(&existing, &analyses(&["librevngB.dylib", "librevngA.dylib"]));

    let root = ROOT;
    let searches = directives
        .iter()
        .filter(|directive| directive.starts_with("cargo::rustc-link-search="))
        .collect::<Vec<_>>();
    assert_eq!(
        searches,
        [
            &format!("cargo::rustc-link-search=native={root}/sdk/lib"),
            &format!("cargo::rustc-link-search=native={root}/sdk/lib/revng/analyses"),
            &format!("cargo::rustc-link-search=native={root}/llvm/lib"),
        ]
    );
    assert!(directives.contains(&"cargo::rustc-link-lib=dylib=LLVMCore".to_owned()));
    assert!(directives.contains(&"cargo::rustc-link-lib=dylib=MLIRCAPIIR".to_owned()));
    assert!(directives.contains(&"cargo::rustc-link-lib=dylib=c++".to_owned()));
    assert!(!directives.contains(&"cargo::rustc-link-lib=dylib=MLIRCAPITransforms".to_owned()));

    let retained = directives
        .iter()
        .filter(|directive| directive.contains("-needed_library"))
        .collect::<Vec<_>>();
    assert_eq!(
        retained,
        [
            &format!(
                "cargo::rustc-link-arg=-Wl,-needed_library,{root}/sdk/lib/librevngLiftReference.dylib"
            ),
            &format!(
                "cargo::rustc-link-arg=-Wl,-needed_library,{root}/sdk/lib/librevngFunctionCallIdentification.dylib"
            ),
            &format!(
                "cargo::rustc-link-arg=-Wl,-needed_library,{root}/sdk/lib/librevngValueMaterializer.dylib"
            ),
            &format!(
                "cargo::rustc-link-arg=-Wl,-needed_library,{root}/sdk/lib/revng/analyses/librevngA.dylib"
            ),
            &format!(
                "cargo::rustc-link-arg=-Wl,-needed_library,{root}/sdk/lib/revng/analyses/librevngB.dylib"
            ),
        ]
    );
    assert!(
        !directives
            .iter()
            .any(|directive| directive.contains("--no-as-needed"))
    );
    assert!(
        !directives
            .iter()
            .any(|directive| directive.contains("--disable-new-dtags"))
    );
    assert!(directives.contains(&format!("cargo::rustc-link-arg=-Wl,-rpath,{root}/llvm/lib")));
}

#[test]
fn linux_link_directives() {
    let existing = present(&[
        "sdk/lib/librevngPipelineC.so",
        "sdk/lib/librevngLiftReference.so",
        "sdk/lib/librevngFunctionCallIdentification.so",
        "sdk/lib/librevngValueMaterializer.so",
        "sdk/lib/revng/analyses/librevngA.so",
        "llvm/lib/libLLVM.so",
        "runtime/libc++.so",
        "runtime/libc++abi.so",
    ]);
    let link_files = vec![at("runtime/libc++.so"), at("runtime/libc++abi.so")];
    let sdk = sdk(Os::Linux, false, link_files);
    let directives = sdk.link_directives(&existing, &analyses(&["librevngA.so"]));

    let root = ROOT;
    assert!(directives.contains(&"cargo::rustc-link-lib=dylib=LLVM".to_owned()));
    assert!(!directives.contains(&"cargo::rustc-link-lib=dylib=LLVMCore".to_owned()));

    let arguments = directives
        .iter()
        .filter(|directive| directive.starts_with("cargo::rustc-link-arg="))
        .collect::<Vec<_>>();
    assert_eq!(
        arguments,
        [
            &"cargo::rustc-link-arg=-Wl,--no-as-needed".to_owned(),
            &format!("cargo::rustc-link-arg={root}/sdk/lib/librevngLiftReference.so"),
            &format!(
                "cargo::rustc-link-arg={root}/sdk/lib/librevngFunctionCallIdentification.so"
            ),
            &format!("cargo::rustc-link-arg={root}/sdk/lib/librevngValueMaterializer.so"),
            &format!("cargo::rustc-link-arg={root}/sdk/lib/revng/analyses/librevngA.so"),
            &"cargo::rustc-link-arg=-Wl,--allow-shlib-undefined".to_owned(),
            &"cargo::rustc-link-arg=-Wl,--disable-new-dtags".to_owned(),
            &format!("cargo::rustc-link-arg={root}/runtime/libc++.so"),
            &format!("cargo::rustc-link-arg={root}/runtime/libc++abi.so"),
            &format!("cargo::rustc-link-arg=-Wl,-rpath,{root}/sdk/lib"),
            &format!("cargo::rustc-link-arg=-Wl,-rpath,{root}/sdk/lib/revng/analyses"),
            &format!("cargo::rustc-link-arg=-Wl,-rpath,{root}/llvm/lib"),
            &format!("cargo::rustc-link-arg=-Wl,-rpath,{root}/runtime"),
        ]
    );
}

#[test]
fn portable_rpaths_are_relative_to_the_package() {
    let existing = present(&[
        "sdk/lib/librevngPipelineC.dylib",
        "sdk/lib/librevngLiftReference.dylib",
        "sdk/lib/revng/analyses/librevngA.dylib",
        "llvm/lib/libLLVMCore.dylib",
    ]);
    let names = analyses(&["librevngA.dylib"]);
    let sdk = sdk(Os::MacOs, true, Vec::new()).with_portable(true);
    let directives = sdk.link_directives(&existing, &names);

    let rpaths = directives
        .iter()
        .filter(|directive| directive.contains("-rpath,"))
        .collect::<Vec<_>>();
    assert_eq!(
        rpaths,
        [
            "cargo::rustc-link-arg=-Wl,-rpath,@loader_path/../lib",
            "cargo::rustc-link-arg=-Wl,-rpath,@loader_path/../lib/revng/analyses",
        ]
    );

    let root = ROOT;
    assert!(directives.contains(&format!("cargo::rustc-link-search=native={root}/llvm/lib")));
    assert!(
        !directives
            .iter()
            .any(|directive| directive.contains(&format!("-rpath,{root}")))
    );

    let linux_sdk = Sdk::from_parts(SdkParts {
        install: checked(&at("sdk"), &at("llvm"), Os::Linux),
        llvm_include: at("llvm/include"),
        llvm_lib: at("llvm/lib"),
        llvm_major: 16,
        component_llvm: true,
        link_files: Vec::new(),
        dependency_includes: Vec::new(),
        portable: true,
    });
    let linux = linux_sdk
        .link_directives(&existing, &names)
        .into_iter()
        .filter(|directive| directive.contains("-rpath,"))
        .collect::<Vec<_>>();
    assert_eq!(
        linux,
        [
            "cargo::rustc-link-arg=-Wl,-rpath,$ORIGIN/../lib",
            "cargo::rustc-link-arg=-Wl,-rpath,$ORIGIN/../lib/revng/analyses",
        ]
    );
}

#[test]
fn runtime_libraries_resolve_through_the_toolchain() {
    // The stub compiler prints `{root}/runtime/{name}` for `-print-file-name={name}`.
    let compiler = at("llvm/bin/clang++");
    let resolve = |existing: &PathSet| -> Result<Vec<String>, Error> {
        runtime_libraries()
            .into_iter()
            .map(|name| {
                let printed = format!("{}\n", at(&format!("runtime/{name}")));
                runtime_library(&compiler, name, &printed, existing)
            })
            .collect()
    };
    let libraries = resolve(&present(&["runtime/libc++.so", "runtime/libc++abi.so"])).unwrap();
    assert_eq!(libraries, [at("runtime/libc++.so"), at("runtime/libc++abi.so")]);

    assert!(matches!(
        resolve(&present(&["runtime/libc++.so"])),
        Err(Error::MissingRuntime { name, .. }) if name == "libc++abi.so"
    ));
}

#[test]
fn runtime_library_must_be_an_absolute_existing_path() {
    let existing = present(&["runtime/libc++.so"]);
    assert!(matches!(
        runtime_library("clang++", "libc++.so", "libc++.so\n", &existing),
        Err(Error::MissingRuntime { compiler, name }) if compiler == "clang++" && name == "libc++.so"
    ));
    assert_eq!(printed_path("  /a/b.so \n"), "/a/b.so");
}

#[test]
fn llvm_config_output_is_read_line_by_line() {
    let config = parse_llvm_config("16.0.6\n/opt/llvm/include\n/opt/llvm/lib\n").unwrap();
    assert_eq!(config.major, LLVM_MAJOR);
    assert_eq!(config.includedir, "/opt/llvm/include");
    assert_eq!(config.libdir, "/opt/llvm/lib");

    assert!(matches!(
        parse_llvm_config("16git\n/x/include\n/x/lib"),
        Err(Error::LlvmVersion { output }) if output == "16git"
    ));
    let config = parse_llvm_config(" 16 .0.6git\r\n  /x/include \r\n/x/lib").unwrap();
    assert_eq!(config.includedir, "/x/include");
    assert_eq!(config.libdir, "/x/lib");

    assert!(matches!(
        parse_llvm_config("17.0.1\n/a\n/b\n"),
        Err(Error::LlvmMajor { found: 17 })
    ));
    assert!(matches!(
        parse_llvm_config("16.0.6\n/a\n"),
        Err(Error::LlvmVersion { output }) if output == "16.0.6\n/a\n"
    ));
    assert!(matches!(
        parse_llvm_config("version\n/a\n/b\n"),
        Err(Error::LlvmVersion { output }) if output == "version"
    ));
}

#[test]
fn install_must_name_both_or_neither() {
    let s = |v: &str| Some(v.to_string());
    assert!(matches!(select_install(None, s("/sdk"), None, None), Err(Error::NoLlvm)));
    assert!(matches!(select_install(None, None, None, s("/llvm")), Err(Error::NoSdk)));
    assert!(matches!(select_install(None, None, None, None), Ok(None)));
    let (sdk, llvm) = select_install(s("/dep-sdk"), s("/sdk"), None, s("/llvm"))
        .unwrap()
        .unwrap();
    assert_eq!(sdk, "/dep-sdk");
    assert_eq!(llvm, "/llvm");
}

#[test]
fn targets_are_linux_and_apple_silicon() {
    assert_eq!(Os::for_target("linux".into(), "riscv64".into()).unwrap(), Os::Linux);
    assert_eq!(Os::for_target("macos".into(), "aarch64".into()).unwrap(), Os::MacOs);
    assert!(matches!(
        Os::for_target("macos".into(), "x86_64".into()),
        Err(Error::UnsupportedTarget { arch, os }) if arch == "x86_64" && os == "macos"
    ));
}

#[test]
fn install_layout_is_checked_in_order() {
    let paths = required_paths_of("/s", "/l", Os::Linux, "/usr/bin/clang++");
    assert_eq!(
        paths,
        [
            "/s/include/revng",
            "/s/lib/revng/analyses",
            "/s/lib/librevngPipelineC.so",
            "/l/bin/llvm-config",
            "/usr/bin/clang++",
        ]
    );
    let mut existing = PathSet::new();
    for path in &paths[..2] {
        existing.insert(path.clone());
    }
    assert!(matches!(
        check_install("/s", "/l", Os::Linux, "/usr/bin/clang++", &existing),
        Err(Error::MissingPath(p)) if p == "/s/lib/librevngPipelineC.so"
    ));
    for path in &paths {
        existing.insert(path.clone());
    }
    assert!(check_install("/s", "/l", Os::Linux, "/usr/bin/clang++", &existing).is_ok());
}

#[test]
fn llvm_layout_prefers_components() {
    let mut existing = PathSet::new();
    assert!(matches!(
        llvm_is_componentised("/l/lib", Os::Linux, &existing),
        Err(Error::MissingPath(p)) if p == "/l/lib/libLLVM.so"
    ));
    existing.insert("/l/lib/libLLVM.so".to_string());
    assert!(!llvm_is_componentised("/l/lib", Os::Linux, &existing).unwrap());
    existing.insert("/l/lib/libLLVMCore.so".to_string());
    assert!(llvm_is_componentised("/l/lib", Os::Linux, &existing).unwrap());
}

#[test]
fn compiler_is_found_on_the_search_path() {
    assert_eq!(
        candidates("/a:/b/:", "clang++"),
        ["/a/clang++", "/b/clang++", "clang++"]
    );
    let mut files = PathSet::new();
    files.insert("/b/clang++".to_string());
    let found = lookup("/a:/b", "clang++", &files);
    assert_eq!(found.as_deref(), Some("/b/clang++"));
    assert_eq!(compiler_for(Os::Linux, found), "/b/clang++");
    assert_eq!(compiler_for(Os::Linux, None), "clang++");
    assert_eq!(compiler_for(Os::MacOs, None), "/usr/bin/clang++");
}

#[test]
fn portable_needs_a_non_empty_value() {
    assert!(portable_requested(Some("1".to_string())));
    assert!(!portable_requested(Some(String::new())));
    assert!(!portable_requested(None));
}

#[test]
fn rerun_directives_cover_every_variable() {
    let directives = rerun_directives();
    assert_eq!(directives.len(), 8);
    assert_eq!(directives[0], "cargo::rerun-if-env-changed=REVNG_SDK");
    assert_eq!(directives[7], "cargo::rerun-if-env-changed=LIBARCHIVE_ROOT");
}

#[test]
fn paths_join_like_std() {
    assert_eq!(join("/a", "b"), "/a/b");
    assert_eq!(join("/a/", "b"), "/a/b");
    assert_eq!(join("", "b"), "b");
    assert_eq!(join("/a", "/b"), "/b");
}

#[test]
fn search_directories_add_each_runtime_directory_once() {
    let link_files = vec![at("runtime/libc++.so"), at("runtime/libc++abi.so"), at("llvm/lib/x.so")];
    let sdk = sdk(Os::Linux, false, link_files);
    assert_eq!(
        sdk.search_directories(),
        [at("sdk/lib"), at("sdk/lib/revng/analyses"), at("llvm/lib"), at("runtime")]
    );
    assert_eq!(sdk.llvm_major(), 16);
    assert_eq!(sdk.prefix(), at("sdk"));
    assert_eq!(sdk.llvm(), at("llvm"));
    assert_eq!(sdk.compiler(None), "clang++");
}

#[test]
fn a_failed_llvm_config_reports_its_error_stream() {
    assert!(matches!(
        read_llvm_config(false, "16.0.0\n/i\n/l\n", "boom"),
        Err(Error::LlvmVersion { output }) if output == "boom"
    ));
    let config = read_llvm_config(true, "16.0.6\n/i\n/l\n", "").ok().unwrap();
    assert_eq!((config.major, config.includedir.as_str(), config.libdir.as_str()), (16, "/i", "/l"));
}

#[test]
fn only_a_portable_sdk_has_relative_run_paths() {
    let fixed = sdk(Os::Linux, true, Vec::new());
    let rpaths = fixed.rpaths(&fixed.search_directories());
    assert!(rpaths.iter().all(|rpath| rpath.starts_with('/')));
    let portable = fixed.with_portable(true);
    let rpaths = portable.rpaths(&portable.search_directories());
    assert!(rpaths.iter().all(|rpath| rpath.starts_with("$ORIGIN")));
    let fixed_again = portable.with_portable(false);
    let rpaths = fixed_again.rpaths(&fixed_again.search_directories());
    assert!(rpaths.iter().all(|rpath| rpath.starts_with('/')));
    assert_eq!(fixed_again.prefix(), at("sdk"));
}
