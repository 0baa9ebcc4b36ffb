use std::path::Path;

use revng_build::discovery::{CheckedInstall, check_install, compiler_for, required_paths_of};
use revng_build::os::Os;
use revng_build::paths::PathSet;
use revng_build::sdk::{Sdk, SdkParts};

/// The install at `prefix` and `llvm`, checked with every required path
/// present.
fn checked(os: Os) -> CheckedInstall {
    let compiler = compiler_for(os, None);
    let mut existing = PathSet::new();
    for path in required_paths_of("/fixture/sdk", "/fixture/llvm", os, &compiler) {
        existing.insert(path);
    }
    check_install("/fixture/sdk", "/fixture/llvm", os, &compiler, &existing).ok().unwrap()
}

#[test]
fn cxx_builds_use_the_sdk_compiler_headers_and_flags() {
    let sdk = Sdk::from_parts(SdkParts {
        install: checked(Os::Linux),
        llvm_include: "/fixture/llvm/include".to_string(),
        llvm_lib: "/fixture/llvm/lib".to_string(),
        llvm_major: 16,
        component_llvm: true,
        link_files: Vec::new(),
        dependency_includes: vec!["/fixture/boost/include".to_string()],
        portable: false,
    });
    let mut build = cc::Build::new();
    build
        .target("x86_64-unknown-linux-gnu")
        .host("x86_64-unknown-linux-gnu")
        .opt_level(0)
        .debug(false)
        .cargo_metadata(false)
        .cargo_warnings(false)
        .out_dir("/tmp");
    sdk.configure_cxx(&mut build, Some("/fixture/bin/clang++".to_string()));
    let tool = build.try_get_compiler().unwrap();
    assert_eq!(tool.path(), Path::new("/fixture/bin/clang++"));
    let arguments: Vec<String> = tool
        .args()
        .iter()
        .map(|argument| argument.to_string_lossy().into_owned())
        .collect();
    let position = |argument: &str| {
        arguments
            .iter()
            .position(|candidate| candidate == argument)
            .unwrap_or_else(|| panic!("{argument} missing from {arguments:?}"))
    };
    let sdk_headers = position("/fixture/sdk/include");
    let llvm_headers = position("/fixture/llvm/include");
    let boost_headers = position("/fixture/boost/include");
    for headers in [sdk_headers, llvm_headers, boost_headers] {
        assert_eq!(arguments[headers - 1], "-I");
    }
    assert!(sdk_headers < llvm_headers && llvm_headers < boost_headers);
    assert!(arguments.contains(&"-w".to_string()));
    let standard = position("-std=c++20");
    let library = position("-stdlib=libc++");
    let rtti = position("-fno-rtti");
    assert!(standard < library && library < rtti);
}

#[test]
fn the_compiler_follows_the_os_and_the_search_path() {
    let sdk = |os| {
        Sdk::from_parts(SdkParts {
            install: checked(os),
            llvm_include: "/fixture/llvm/include".to_string(),
            llvm_lib: "/fixture/llvm/lib".to_string(),
            llvm_major: 16,
            component_llvm: true,
            link_files: Vec::new(),
            dependency_includes: Vec::new(),
            portable: false,
        })
    };
    let linux = sdk(Os::Linux);
    assert_eq!(linux.compiler(Some("/opt/bin/clang++".to_string())), "/opt/bin/clang++");
    assert_eq!(linux.compiler(None), "clang++");
    assert_eq!(sdk(Os::MacOs).compiler(Some("/opt/bin/clang++".to_string())), "/usr/bin/clang++");
    assert_eq!(linux.with_portable(true).llvm_major(), 16);
}
