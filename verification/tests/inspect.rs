use revng_build::inspect::{
    DynEntry, MachoCommand, collect_references, elf_needed, macho_references, needed_names,
};
use revng_build::package::Error;

fn push16(b: &mut Vec<u8>, v: u16) {
    b.extend_from_slice(&v.to_le_bytes());
}
fn push32(b: &mut Vec<u8>, v: u32) {
    b.extend_from_slice(&v.to_le_bytes());
}
fn push64(b: &mut Vec<u8>, v: u64) {
    b.extend_from_slice(&v.to_le_bytes());
}

/// A 64-bit little-endian shared object with a dynamic table whose entries
/// are `entries` over the string table `strings`.
fn elf(strings: &[u8], entries: &[(u64, u64)]) -> Vec<u8> {
    let strings_at = 64u64;
    let strings_len = strings.len() as u64;
    let dynamic_at = (strings_at + strings_len + 7) / 8 * 8;
    let dynamic_len = 16 * entries.len() as u64;
    let sections_at = dynamic_at + dynamic_len;
    let mut b = vec![0x7f, b'E', b'L', b'F', 2, 1, 1, 0, 0, 0, 0, 0, 0, 0, 0, 0];
    push16(&mut b, 3);
    push16(&mut b, 62);
    push32(&mut b, 1);
    push64(&mut b, 0);
    push64(&mut b, 0);
    push64(&mut b, sections_at);
    push32(&mut b, 0);
    push16(&mut b, 64);
    push16(&mut b, 56);
    push16(&mut b, 0);
    push16(&mut b, 64);
    push16(&mut b, 3);
    push16(&mut b, 1);
    b.extend_from_slice(strings);
    b.resize(dynamic_at as usize, 0);
    for (tag, value) in entries {
        push64(&mut b, *tag);
        push64(&mut b, *value);
    }
    let section = |b: &mut Vec<u8>, kind: u32, at: u64, len: u64, link: u32, size: u64| {
        push32(b, 0);
        push32(b, kind);
        push64(b, 0);
        push64(b, 0);
        push64(b, at);
        push64(b, len);
        push32(b, link);
        push32(b, 0);
        push64(b, 8);
        push64(b, size);
    };
    section(&mut b, 0, 0, 0, 0, 0);
    section(&mut b, 3, strings_at, strings_len, 0, 0);
    section(&mut b, 6, dynamic_at, dynamic_len, 1, 16);
    b
}

/// A 64-bit little-endian Mach-O dylib that loads `dylib` and has the run
/// path `rpath`.
fn macho(dylib: &str, rpath: &str) -> Vec<u8> {
    let padded = |text: &str, fixed: usize| (fixed + text.len() + 1 + 7) / 8 * 8;
    let dylib_size = padded(dylib, 24);
    let rpath_size = padded(rpath, 12);
    let mut b = Vec::new();
    push32(&mut b, 0xfeedfacf);
    push32(&mut b, 0x0100000c);
    push32(&mut b, 0);
    push32(&mut b, 6);
    push32(&mut b, 2);
    push32(&mut b, (dylib_size + rpath_size) as u32);
    push32(&mut b, 0);
    push32(&mut b, 0);
    let start = b.len();
    push32(&mut b, 0xc);
    push32(&mut b, dylib_size as u32);
    push32(&mut b, 24);
    push32(&mut b, 0);
    push32(&mut b, 0);
    push32(&mut b, 0);
    b.extend_from_slice(dylib.as_bytes());
    b.resize(start + dylib_size, 0);
    let start = b.len();
    push32(&mut b, 0x8000001c);
    push32(&mut b, rpath_size as u32);
    push32(&mut b, 12);
    b.extend_from_slice(rpath.as_bytes());
    b.resize(start + rpath_size, 0);
    b
}

#[test]
fn an_elf_object_needs_the_libraries_its_dynamic_table_names() {
    let strings = b"\0libfoo.so.1\0libbar.so\0";
    let data = elf(strings, &[(1, 1), (14, 1), (1, 13), (0, 0)]);
    let needed = elf_needed("/o/lib/liba.so", &data).unwrap();
    assert_eq!(needed, vec!["libfoo.so.1".to_string(), "libbar.so".to_string()]);
}

#[test]
fn an_elf_object_without_needs_needs_nothing() {
    let data = elf(b"\0", &[(0, 0)]);
    assert!(elf_needed("/o/lib/liba.so", &data).unwrap().is_empty());
}

#[test]
fn a_macho_object_names_its_libraries_and_run_paths() {
    let data = macho("/usr/lib/libSystem.B.dylib", "@loader_path/../lib");
    let references = macho_references("/o/bin/x", &data).unwrap();
    assert_eq!(references.dylibs, vec!["/usr/lib/libSystem.B.dylib".to_string()]);
    assert_eq!(references.rpaths, vec!["@loader_path/../lib".to_string()]);
}

#[test]
fn objects_of_another_format_or_none_are_refused() {
    let data = macho("/usr/lib/libSystem.B.dylib", "@loader_path/../lib");
    assert!(matches!(
        elf_needed("/o/bin/x", &data),
        Err(Error::UnexpectedFormat { path, expected: "ELF" }) if path == "/o/bin/x"
    ));
    let data = elf(b"\0", &[(0, 0)]);
    assert!(matches!(
        macho_references("/o/bin/x", &data),
        Err(Error::UnexpectedFormat { expected: "Mach-O", .. })
    ));
    assert!(matches!(
        elf_needed("/o/bin/x", b"not an object"),
        Err(Error::Inspect { path, .. }) if path == "/o/bin/x"
    ));
}

#[test]
fn only_needed_entries_count_and_the_first_bad_name_stops() {
    let entries = vec![
        DynEntry { tag: 14, name: Err("bad soname".to_string()) },
        DynEntry { tag: 1, name: Ok(b"liba.so".to_vec()) },
        DynEntry { tag: 1, name: Err("bad needed".to_string()) },
        DynEntry { tag: 1, name: Err("later".to_string()) },
    ];
    assert!(matches!(
        needed_names("/o/x", &entries),
        Err(Error::Inspect { message, .. }) if message == "bad needed"
    ));
    let fine = vec![
        DynEntry { tag: 14, name: Err("bad soname".to_string()) },
        DynEntry { tag: 1, name: Ok(b"liba.so".to_vec()) },
    ];
    assert_eq!(needed_names("/o/x", &fine).unwrap(), vec!["liba.so".to_string()]);
}

#[test]
fn a_bad_name_comes_before_the_stop_that_followed_it() {
    let commands = vec![
        MachoCommand::Rpath(Ok(b"@loader_path".to_vec())),
        MachoCommand::Other,
        MachoCommand::Dylib(Err("bad offset".to_string())),
    ];
    assert!(matches!(
        collect_references("/o/x", &commands, Some("truncated".to_string())),
        Err(Error::Inspect { message, .. }) if message == "bad offset"
    ));
    let fine = || vec![MachoCommand::Rpath(Ok(b"@loader_path".to_vec())), MachoCommand::Other];
    assert!(matches!(
        collect_references("/o/x", &fine(), Some("truncated".to_string())),
        Err(Error::Inspect { message, .. }) if message == "truncated"
    ));
    let references = collect_references("/o/x", &fine(), None).unwrap();
    assert!(references.dylibs.is_empty());
    assert_eq!(references.rpaths, vec!["@loader_path".to_string()]);
}
