use revng_build::assembly::PackageRun;
use revng_build::bundle::Bundler;
use revng_build::os::Os;
use revng_build::package::{
    Entry, Error, ObjectFormat, Packager, Stage, Summary, Width, check_needed, check_references,
    expect_elf, expect_macho, in_path_order, is_system_library, tool_outcome,
    linux_directories, packaged_names, sort_entries,
};
use revng_build::paths::PathSet;

#[test]
fn system_classification_and_search_dirs_track_the_host_arch() {
    let arch = "x86_64";
    assert!(is_system_library("libc.so.6", arch));
    assert!(!is_system_library("librevngSupport.so", arch));
    assert!(!is_system_library("libarchive.so.13", arch));

    let triplet = format!("{}-linux-gnu", arch);
    let directories = linux_directories(arch);
    assert_eq!(directories[0], format!("/usr/lib/{triplet}"));
    assert!(directories.contains(&"/usr/lib".to_string()));
}

#[test]
fn the_loader_of_each_architecture_is_a_system_library() {
    assert!(is_system_library("ld-linux-aarch64.so.1", "aarch64"));
    assert!(!is_system_library("ld-linux-aarch64.so.1", "x86_64"));
    assert!(is_system_library("ld-linux-x86-64.so.2", "x86_64"));
}

#[test]
fn recognises_versioned_shared_libraries() {
    assert!(Os::Linux.is_dynamic_library("libarchive.so.13"));
    assert!(Os::Linux.is_dynamic_library("librevngSupport.so"));
    assert!(!Os::Linux.is_dynamic_library("librevngScopeGraphUtils.a"));
    assert!(Os::MacOs.is_dynamic_library("librevngSupport.dylib"));
    assert!(!Os::MacOs.is_dynamic_library("libLLVMCore.so"));
}

fn file(path: &str) -> Entry {
    Entry { path: path.to_string(), is_file: true }
}

#[test]
fn merging_the_two_library_trees_rejects_a_collision() {
    for os in [Os::Linux, Os::MacOs] {
        let extension = if os == Os::MacOs { "dylib" } else { "so" };
        let root = "/scratch/collision";
        let cache = format!("{root}/cache");
        let packager =
            Packager::new(cache.clone(), format!("{root}/consumer"), format!("{root}/out"), os)
                .unwrap();
        let mut existing = PathSet::new();
        for input in packager.inputs() {
            existing.insert(input);
        }
        assert!(packager.validate(&existing).is_ok());
        let sdk = vec![
            file(&format!("{cache}/sdk/lib/libclash.{extension}")),
            Entry { path: format!("{cache}/sdk/lib/revng"), is_file: false },
        ];
        let llvm = vec![file(&format!("{cache}/llvm/lib/libclash.{extension}"))];
        let analyses = vec![file(&format!("{cache}/sdk/lib/revng/analyses/librevngA.{extension}"))];
        let plan = packager.plan_libraries(&sdk, &llvm, &analyses);
        let error = plan.outcome.unwrap_err();
        assert!(
            matches!(&error, Error::Collision { name, .. } if *name == format!("libclash.{extension}")),
            "expected a collision error, got {error:?}"
        );
        assert_eq!(plan.copies.len(), 1);
    }
}

#[test]
fn library_trees_merge_into_the_package() {
    let packager = Packager::new("/c".into(), "/b/consumer".into(), "/o".into(), Os::Linux).unwrap();
    assert!(packager.strip());
    let sdk = vec![file("/c/sdk/lib/librevngSupport.so"), file("/c/sdk/lib/libx.a")];
    let llvm = vec![Entry { path: "/c/llvm/lib/cmake".into(), is_file: false }, file("/c/llvm/lib/libLLVM.so.16")];
    let analyses = vec![file("/c/sdk/lib/revng/analyses/README"), file("/c/sdk/lib/revng/analyses/librevngA.so")];
    assert!(in_path_order(&sdk) && in_path_order(&llvm) && in_path_order(&analyses));
    let plan = packager.plan_libraries(&sdk, &llvm, &analyses);
    assert_eq!(plan.outcome.unwrap(), (2, 1));
    assert_eq!(
        plan.copies,
        [
            ("/c/sdk/lib/librevngSupport.so".to_string(), "/o/lib/librevngSupport.so".to_string()),
            ("/c/llvm/lib/libLLVM.so.16".to_string(), "/o/lib/libLLVM.so.16".to_string()),
            (
                "/c/sdk/lib/revng/analyses/librevngA.so".to_string(),
                "/o/lib/revng/analyses/librevngA.so".to_string()
            ),
        ]
    );
    assert_eq!(packager.packaged_binary(), "/o/bin/consumer");
    assert_eq!(
        packager.output_directories(),
        ["/o/bin", "/o/lib", "/o/lib/revng/analyses", "/o/share/revng"]
    );
    let renamed = packager.with_name("tool".into()).with_strip(false);
    assert_eq!(renamed.packaged_binary(), "/o/bin/tool");
    assert!(!renamed.strip());
}

#[test]
fn a_missing_input_is_reported() {
    let packager = Packager::new("/c".into(), "/b/consumer".into(), "/o".into(), Os::MacOs).unwrap();
    assert!(!packager.strip());
    let mut existing = PathSet::new();
    existing.insert("/b/consumer".into());
    assert!(matches!(packager.validate(&existing), Err(Error::MissingInput(p)) if p == "/c/sdk/lib"));
    assert!(matches!(
        Packager::new("/c".into(), "/".into(), "/o".into(), Os::Linux),
        Err(Error::MissingInput(p)) if p == "/"
    ));
    assert!(matches!(Os::host("windows"), Err(Error::UnsupportedTarget(os)) if os == "windows"));
    assert_eq!(Os::host("linux").unwrap(), Os::Linux);
}

#[test]
fn escaping_dependencies_are_reported() {
    let present = packaged_names(&vec!["/o/lib/librevngSupport.so".into()], &vec!["/o/lib/revng/analyses/librevngA.so".into()]);
    assert!(present.contains(&"librevngA.so".to_string()));
    let needed = vec!["libc.so.6".to_string(), "librevngSupport.so".to_string(), "libz.so.1".to_string()];
    assert!(matches!(
        check_needed("/o/bin/x", &needed, &present, "x86_64"),
        Err(Error::EscapedDependency { library, dependency }) if library == "/o/bin/x" && dependency == "libz.so.1"
    ));
    assert!(check_needed("/o/bin/x", &needed[..2].to_vec(), &present, "x86_64").is_ok());
    let dylibs = vec!["@rpath/librevngSupport.dylib".to_string()];
    let rpaths = vec!["/cache/key/sdk/lib".to_string()];
    assert!(matches!(
        check_references("/cache/key", "/o/bin/x", &dylibs, &rpaths),
        Err(Error::EscapedDependency { dependency, .. }) if dependency == "/cache/key/sdk/lib"
    ));
    assert!(check_references("/cache/key", "/o/bin/x", &dylibs, &vec![]).is_ok());
}

#[test]
fn bundling_follows_needs_until_closed() {
    let mut present = PathSet::new();
    present.insert("librevngSupport.so".into());
    let mut bundler = Bundler::new(present, vec!["/o/bin/x".into()], "/o/lib".into(), "x86_64".into());
    assert_eq!(bundler.pending().as_deref(), Some("/o/bin/x"));
    let candidates = bundler.candidates("libz.so.1");
    assert_eq!(candidates[4], "/usr/lib/libz.so.1");
    let mut existing = PathSet::new();
    existing.insert("/lib/libz.so.1".into());
    existing.insert("/usr/lib/libz.so.1".into());
    let needs: Vec<String> = vec!["libc.so.6".into(), "librevngSupport.so".into(), "libz.so.1".into()];
    let (copies, outcome) = bundler.process(&needs, &existing);
    assert!(outcome.is_ok());
    assert_eq!(copies, vec![("/usr/lib/libz.so.1".to_string(), "/o/lib/libz.so.1".to_string())]);
    assert!(!bundler.needs(&"libz.so.1".to_string()));
    assert_eq!(bundler.pending().as_deref(), Some("/o/lib/libz.so.1"));
    let missing = "libmissing.so.2".to_string();
    assert!(bundler.needs(&missing));
    let (copies, outcome) = bundler.process(&vec![missing.clone()], &existing);
    assert!(copies.is_empty());
    assert!(matches!(
        outcome,
        Err(Error::UnresolvedDependency { library, dependency }) if library == "/o/lib/libz.so.1" && dependency == missing
    ));
    assert_eq!(bundler.pending().as_deref(), Some("/o/lib/libz.so.1"));
    let (copies, outcome) = bundler.process(&vec!["libc.so.6".to_string()], &existing);
    assert!(copies.is_empty() && outcome.is_ok());
    assert!(bundler.pending().is_none());
    assert_eq!(bundler.finish(), ["libz.so.1"]);
}

#[test]
fn the_summary_reports_what_was_packaged() {
    let summary = Summary {
        out: "/o".into(),
        libraries: 12,
        analyses: 0,
        bundled: vec!["liba.so".into(), "libb.so".into()],
        stripped: true,
    };
    assert_eq!(
        summary.report(),
        [
            "packaged 12 libraries and 0 analyses into /o",
            "bundled 2: liba.so, libb.so",
            "stripped shipped binaries",
        ]
    );
}

#[test]
fn stages_relocate_on_linux_and_strip_when_asked() {
    let linux = Packager::new("/c".into(), "/b/consumer".into(), "/o".into(), Os::Linux).unwrap();
    assert_eq!(
        linux.stages(),
        vec![
            Stage::Validate,
            Stage::PrepareOut,
            Stage::CopyBinary,
            Stage::CopyLibraries,
            Stage::CopyShare,
            Stage::BundleAndRelocate,
            Stage::Strip,
            Stage::Verify,
        ]
    );
    let kept = linux.with_strip(false);
    assert!(!kept.stages().contains(&Stage::Strip));
    assert!(kept.stages().contains(&Stage::BundleAndRelocate));

    let macos = Packager::new("/c".into(), "/b/consumer".into(), "/o".into(), Os::MacOs).unwrap();
    let macos = macos.with_strip(true);
    assert!(!macos.strip());
    assert_eq!(
        macos.stages(),
        vec![
            Stage::Validate,
            Stage::PrepareOut,
            Stage::CopyBinary,
            Stage::CopyLibraries,
            Stage::CopyShare,
            Stage::Verify,
        ]
    );
}

#[test]
fn an_occupied_output_directory_is_refused() {
    let packager = Packager::new("/c".into(), "/b/consumer".into(), "/o".into(), Os::Linux).unwrap();
    assert!(packager.output_ready(false).is_ok());
    assert!(matches!(packager.output_ready(true), Err(Error::OutputNotEmpty(out)) if out == "/o"));
}

#[test]
fn relocation_and_stripping_cover_every_packaged_library() {
    let packager = Packager::new("/c".into(), "/b/consumer".into(), "/o".into(), Os::Linux).unwrap();
    let libraries = vec![
        file("/o/lib/libLLVM.so"),
        file("/o/lib/notes.txt"),
        Entry { path: "/o/lib/revng".into(), is_file: false },
        file("/o/lib/libarchive.so.13"),
    ];
    let analyses = vec![file("/o/lib/revng/analyses/librevngA.so")];
    let relocations = packager.relocations(&libraries, &analyses);
    assert_eq!(
        relocations,
        vec![
            ("/o/lib/libLLVM.so".to_string(), "$ORIGIN:$ORIGIN/revng/analyses"),
            ("/o/lib/libarchive.so.13".to_string(), "$ORIGIN:$ORIGIN/revng/analyses"),
            ("/o/lib/revng/analyses/librevngA.so".to_string(), "$ORIGIN:$ORIGIN/../.."),
        ]
    );
    let strips = packager.strip_invocations(&libraries, &analyses);
    assert_eq!(
        strips,
        vec![
            vec!["/o/bin/consumer".to_string()],
            vec!["--strip-unneeded".to_string(), "/o/lib/libLLVM.so".to_string()],
            vec!["--strip-unneeded".to_string(), "/o/lib/libarchive.so.13".to_string()],
            vec![
                "--strip-unneeded".to_string(),
                "/o/lib/revng/analyses/librevngA.so".to_string(),
            ],
        ]
    );
}

#[test]
fn the_summary_comes_from_the_packager_and_the_stages() {
    let packager = Packager::new("/c".into(), "/b/consumer".into(), "/o".into(), Os::Linux).unwrap();
    let mut run = PackageRun::new(&packager);
    let mut seen = Vec::new();
    while let Some(stage) = run.next_stage() {
        seen.push(stage);
        match stage {
            Stage::CopyLibraries => run.libraries_copied(4, 2),
            Stage::BundleAndRelocate => run.libraries_bundled(vec!["libz.so.1".into()]),
            _ => run.stage_done(),
        }
    }
    assert_eq!(seen, packager.stages());
    let summary = run.summary();
    assert_eq!(summary.out, "/o");
    assert_eq!((summary.libraries, summary.analyses), (4, 2));
    assert_eq!(summary.bundled, vec!["libz.so.1".to_string()]);
    assert!(summary.stripped);
}

#[test]
fn a_macos_run_has_no_bundling_stage_and_bundles_nothing() {
    let packager = Packager::new("/c".into(), "/b/consumer".into(), "/o".into(), Os::MacOs).unwrap();
    let mut run = PackageRun::new(&packager);
    while let Some(stage) = run.next_stage() {
        assert_ne!(stage, Stage::BundleAndRelocate);
        match stage {
            Stage::CopyLibraries => run.libraries_copied(3, 1),
            _ => run.stage_done(),
        }
    }
    let summary = run.summary();
    assert_eq!((summary.libraries, summary.analyses), (3, 1));
    assert!(summary.bundled.is_empty());
    assert!(!summary.stripped);
}

#[test]
fn objects_of_the_wrong_format_are_refused() {
    assert_eq!(expect_elf("/o/bin/x", ObjectFormat::Elf64).ok(), Some(Width::Bits64));
    assert_eq!(expect_elf("/o/bin/x", ObjectFormat::Elf32).ok(), Some(Width::Bits32));
    assert!(matches!(
        expect_elf("/o/bin/x", ObjectFormat::MachO64),
        Err(Error::UnexpectedFormat { path, expected: "ELF" }) if path == "/o/bin/x"
    ));
    assert_eq!(expect_macho("/o/bin/x", ObjectFormat::MachO32).ok(), Some(Width::Bits32));
    assert!(matches!(
        expect_macho("/o/bin/x", ObjectFormat::Other),
        Err(Error::UnexpectedFormat { expected: "Mach-O", .. })
    ));
}

#[test]
fn a_failed_tool_names_its_target() {
    assert!(tool_outcome("strip", "/o/bin/x", true).is_ok());
    assert!(matches!(
        tool_outcome("patchelf", "/o/lib/liba.so", false),
        Err(Error::Tool { tool: "patchelf", target }) if target == "/o/lib/liba.so"
    ));
}

#[test]
fn the_least_common_name_is_the_collision_reported() {
    let packager = Packager::new("/c".into(), "/b/consumer".into(), "/o".into(), Os::Linux).unwrap();
    let sdk = vec![file("/c/sdk/lib/libm.so"), file("/c/sdk/lib/libz.so")];
    let llvm = vec![file("/c/llvm/lib/liba.so"), file("/c/llvm/lib/libm.so"), file("/c/llvm/lib/libz.so")];
    let unsorted = vec![file("/c/llvm/lib/libz.so"), file("/c/llvm/lib/libm.so"), file("/c/llvm/lib/liba.so")];
    assert!(in_path_order(&sdk) && in_path_order(&llvm) && !in_path_order(&unsorted));
    let sorted = sort_entries(&unsorted);
    assert!(in_path_order(&sorted));
    let paths: Vec<&str> = sorted.iter().map(|entry| entry.path.as_str()).collect();
    assert_eq!(paths, ["/c/llvm/lib/liba.so", "/c/llvm/lib/libm.so", "/c/llvm/lib/libz.so"]);
    let plan = packager.plan_libraries(&sdk, &sorted, &Vec::new());
    assert!(matches!(
        plan.outcome,
        Err(Error::Collision { name, first, second })
            if name == "libm.so" && first == "/c/sdk/lib/libm.so" && second == "/c/llvm/lib/libm.so"
    ));
}

#[test]
fn a_bundled_library_comes_from_the_first_directory_that_holds_it() {
    let bundler = Bundler::new(PathSet::new(), vec!["/o/bin/x".into()], "/o/lib".into(), "x86_64".into());
    let mut existing = PathSet::new();
    existing.insert("/usr/lib/libz.so.1".into());
    existing.insert("/lib/x86_64-linux-gnu/libz.so.1".into());
    assert_eq!(
        bundler.locate("libz.so.1", &existing).as_deref(),
        Some("/lib/x86_64-linux-gnu/libz.so.1")
    );
    assert_eq!(bundler.locate("libq.so.1", &existing), None);
}
