//! What a packaged object refers to, read from its bytes: the sonames an
//! ELF object needs, and the libraries and run paths a Mach-O object names.
//! The `object` crate parses; the library picks out what it refers to.
use vstd::prelude::*;
use vstd::string::StringExecFns;

use object::elf::{FileHeader32, FileHeader64};
use object::macho::{MachHeader32, MachHeader64};
use object::read::elf::{Dyn, FileHeader};
use object::read::macho::LoadCommandVariant as Lc;
use object::read::macho::MachHeader;

use crate::inspect::MachoCommand::{Dylib, Other, Rpath};
use object::read::Error as ObjectError;
use object::{Endianness, FileKind};

use crate::package::{Error, ObjectFormat, Width, elf_width, expect_elf, expect_macho, macho_width};
use crate::text::views;

verus! {

/// The dynamic tag of an entry that names a needed library.
pub const DT_NEEDED: i64 = 1;

// ---------------------------------------------------------------------------
// What the parser makes of the bytes
// ---------------------------------------------------------------------------

/// What `FileKind::parse` makes of an object's bytes: its format, or the
/// parser's message.
pub uninterp spec fn object_format_of(data: Seq<u8>) -> Result<ObjectFormat, Seq<char>>;

/// Calls `FileKind::parse` and tells the formats apart, one arm each: a
/// 32- or 64-bit ELF or Mach-O file, or any other. The contract ties the
/// result to `object_format_of` of the bytes.
#[verifier::external_body]
fn object_format(data: &[u8]) -> (r: Result<ObjectFormat, String>)
    ensures
        match r {
            Ok(f) => object_format_of(data@) == Ok::<ObjectFormat, Seq<char>>(f),
            Err(m) => object_format_of(data@) == Err::<ObjectFormat, Seq<char>>(m@),
        },
{
    match FileKind::parse(data) {
        Ok(FileKind::Elf32) => Ok(ObjectFormat::Elf32),
        Ok(FileKind::Elf64) => Ok(ObjectFormat::Elf64),
        Ok(FileKind::MachO32) => Ok(ObjectFormat::MachO32),
        Ok(FileKind::MachO64) => Ok(ObjectFormat::MachO64),
        Ok(_) => Ok(ObjectFormat::Other),
        Err(e) => Err(e.to_string()),
    }
}

/// An entry of an ELF object's dynamic table: its tag, and the string its
/// value names in the dynamic string table (or the parser's message).
pub struct DynEntry {
    pub tag: i64,
    pub name: Result<Vec<u8>, String>,
}

/// An entry of a dynamic table, as values.
pub struct DynEntryView {
    pub tag: i64,
    pub name: Result<Seq<u8>, Seq<char>>,
}

/// The view of a dynamic entry.
pub open spec fn dyn_entry_view(e: DynEntry) -> DynEntryView {
    DynEntryView {
        tag: e.tag,
        name: match e.name {
            Ok(b) => Ok(b@),
            Err(m) => Err(m@),
        },
    }
}

/// The view of what a dynamic-table reader gave.
pub open spec fn dynamic_view(r: Result<Option<Vec<DynEntry>>, String>) -> Result<
    Option<Seq<DynEntryView>>,
    Seq<char>,
> {
    match r {
        Ok(Some(v)) => Ok(Some(v@.map_values(|e: DynEntry| dyn_entry_view(e)))),
        Ok(None) => Ok(None),
        Err(m) => Err(m@),
    }
}

/// What the parser makes of a 32-bit ELF object's dynamic table: its
/// entries, nothing when it has none, or the parser's message.
pub uninterp spec fn elf32_dynamic_of(data: Seq<u8>) -> Result<Option<Seq<DynEntryView>>, Seq<char>>;

/// What the parser makes of a 64-bit ELF object's dynamic table.
pub uninterp spec fn elf64_dynamic_of(data: Seq<u8>) -> Result<Option<Seq<DynEntryView>>, Seq<char>>;

/// Calls `FileHeader32::parse`, `endian`, `sections`, `SectionTable::dynamic`
/// and `strings`, then `Dyn::tag` and `Dyn::string` on each entry. The
/// contract ties the result to `elf32_dynamic_of` of the bytes.
#[verifier::external_body]
fn elf32_dynamic(data: &[u8]) -> (r: Result<Option<Vec<DynEntry>>, String>)
    ensures
        dynamic_view(r) == elf32_dynamic_of(data@),
{
    let e = |x: ObjectError| x.to_string();
    let h = FileHeader32::<Endianness>::parse(data).map_err(e)?;
    let n = h.endian().map_err(e)?;
    let s = h.sections(n, data).map_err(e)?;
    let (d, i) = match s.dynamic(n, data).map_err(e)? { Some(found) => found, None => return Ok(None) };
    let t = s.strings(n, data, i).map_err(e)?;
    let entry = |x: &_| DynEntry { tag: Dyn::tag(x, n).0, name: Dyn::string(x, n, t).map(Vec::from).map_err(e) };
    Ok(Some(d.iter().map(entry).collect()))
}

/// Calls `FileHeader64::parse`, `endian`, `sections`, `SectionTable::dynamic`
/// and `strings`, then `Dyn::tag` and `Dyn::string` on each entry. The
/// contract ties the result to `elf64_dynamic_of` of the bytes.
#[verifier::external_body]
fn elf64_dynamic(data: &[u8]) -> (r: Result<Option<Vec<DynEntry>>, String>)
    ensures
        dynamic_view(r) == elf64_dynamic_of(data@),
{
    let e = |x: ObjectError| x.to_string();
    let h = FileHeader64::<Endianness>::parse(data).map_err(e)?;
    let n = h.endian().map_err(e)?;
    let s = h.sections(n, data).map_err(e)?;
    let (d, i) = match s.dynamic(n, data).map_err(e)? { Some(found) => found, None => return Ok(None) };
    let t = s.strings(n, data, i).map_err(e)?;
    let entry = |x: &_| DynEntry { tag: Dyn::tag(x, n).0, name: Dyn::string(x, n, t).map(Vec::from).map_err(e) };
    Ok(Some(d.iter().map(entry).collect()))
}

/// A load command of a Mach-O object: a library it loads, a run path, or
/// any other; a name comes with the string it points at (or the parser's
/// message).
pub enum MachoCommand {
    Dylib(Result<Vec<u8>, String>),
    Rpath(Result<Vec<u8>, String>),
    Other,
}

/// A load command, as values.
pub enum MachoCommandView {
    Dylib(Result<Seq<u8>, Seq<char>>),
    Rpath(Result<Seq<u8>, Seq<char>>),
    Other,
}

/// The view of a byte string or the parser's message.
pub open spec fn bytes_view(r: Result<Vec<u8>, String>) -> Result<Seq<u8>, Seq<char>> {
    match r {
        Ok(b) => Ok(b@),
        Err(m) => Err(m@),
    }
}

/// The view of a load command.
pub open spec fn command_view(c: MachoCommand) -> MachoCommandView {
    match c {
        MachoCommand::Dylib(n) => MachoCommandView::Dylib(bytes_view(n)),
        MachoCommand::Rpath(n) => MachoCommandView::Rpath(bytes_view(n)),
        MachoCommand::Other => MachoCommandView::Other,
    }
}

/// The views of load commands.
pub open spec fn command_views(v: Seq<MachoCommand>) -> Seq<MachoCommandView> {
    v.map_values(|c: MachoCommand| command_view(c))
}

/// What the parser makes of a 32-bit Mach-O object's load commands: the
/// commands read, in order, and the message that stopped the reading (at
/// the header, or at a command) if one did.
pub uninterp spec fn macho32_commands_of(data: Seq<u8>) -> (Seq<MachoCommandView>, Option<Seq<char>>);

/// What the parser makes of a 64-bit Mach-O object's load commands.
pub uninterp spec fn macho64_commands_of(data: Seq<u8>) -> (Seq<MachoCommandView>, Option<Seq<char>>);

/// Calls `MachHeader32::parse`, `endian` and `load_commands`, then walks
/// the commands with `next`, telling them apart with `variant`, one arm
/// each, and reading a library's or run path's string with `string`; the
/// commands read are appended to `v`. The contract ties what is appended,
/// and the message that stopped the walk, to `macho32_commands_of`.
#[verifier::external_body]
fn macho32_commands(data: &[u8], v: &mut Vec<MachoCommand>) -> (r: Result<(), String>)
    ensures
        command_views(final(v)@) == command_views(old(v)@) + macho32_commands_of(data@).0,
        match r {
            Ok(()) => macho32_commands_of(data@).1 is None,
            Err(m) => macho32_commands_of(data@).1 == Some(m@),
        },
{
    let e = |x: ObjectError| x.to_string();
    let h = MachHeader32::<Endianness>::parse(data, 0).map_err(e)?;
    let n = h.endian().map_err(e)?;
    let mut it = h.load_commands(n, data, 0).map_err(e)?;
    while let Some(c) = it.next().map_err(e)? {
        let s = |l| c.string(n, l).map(Vec::from).map_err(e);
        v.push(match c.variant().map_err(e)? {
            Lc::Dylib(d) => Dylib(s(d.dylib.name)),
            Lc::Rpath(p) => Rpath(s(p.path)),
            _ => Other,
        });
    }
    Ok(())
}

/// Calls `MachHeader64::parse`, `endian` and `load_commands`, then walks
/// the commands with `next`, telling them apart with `variant`, one arm
/// each, and reading a library's or run path's string with `string`; the
/// commands read are appended to `v`. The contract ties what is appended,
/// and the message that stopped the walk, to `macho64_commands_of`.
#[verifier::external_body]
fn macho64_commands(data: &[u8], v: &mut Vec<MachoCommand>) -> (r: Result<(), String>)
    ensures
        command_views(final(v)@) == command_views(old(v)@) + macho64_commands_of(data@).0,
        match r {
            Ok(()) => macho64_commands_of(data@).1 is None,
            Err(m) => macho64_commands_of(data@).1 == Some(m@),
        },
{
    let e = |x: ObjectError| x.to_string();
    let h = MachHeader64::<Endianness>::parse(data, 0).map_err(e)?;
    let n = h.endian().map_err(e)?;
    let mut it = h.load_commands(n, data, 0).map_err(e)?;
    while let Some(c) = it.next().map_err(e)? {
        let s = |l| c.string(n, l).map(Vec::from).map_err(e);
        v.push(match c.variant().map_err(e)? {
            Lc::Dylib(d) => Dylib(s(d.dylib.name)),
            Lc::Rpath(p) => Rpath(s(p.path)),
            _ => Other,
        });
    }
    Ok(())
}

/// What `String::from_utf8_lossy` makes of bytes.
pub uninterp spec fn utf8_lossy_of(bytes: Seq<u8>) -> Seq<char>;

/// Calls `String::from_utf8_lossy`: the bytes as text, with each invalid
/// sequence replaced. The contract ties the result to `utf8_lossy_of` of
/// the bytes.
#[verifier::external_body]
fn utf8_lossy(bytes: &[u8]) -> (r: String)
    ensures
        r@ == utf8_lossy_of(bytes@),
{
    String::from_utf8_lossy(bytes).into_owned()
}

// ---------------------------------------------------------------------------
// What an object refers to
// ---------------------------------------------------------------------------

/// The sonames named by the `DT_NEEDED` entries, in order, or the message of
/// the first such entry whose name could not be read.
pub open spec fn needed_of(entries: Seq<DynEntryView>) -> Result<Seq<Seq<char>>, Seq<char>>
    decreases entries.len(),
{
    if entries.len() == 0 {
        Ok(seq![])
    } else {
        match needed_of(entries.drop_last()) {
            Err(m) => Err(m),
            Ok(names) => if entries.last().tag == DT_NEEDED {
                match entries.last().name {
                    Ok(b) => Ok(names.push(utf8_lossy_of(b))),
                    Err(m) => Err(m),
                }
            } else {
                Ok(names)
            },
        }
    }
}

/// The libraries and run paths the load commands name, in order, or the
/// message of the first name that could not be read.
pub open spec fn references_of(commands: Seq<MachoCommandView>) -> Result<
    (Seq<Seq<char>>, Seq<Seq<char>>),
    Seq<char>,
>
    decreases commands.len(),
{
    if commands.len() == 0 {
        Ok((seq![], seq![]))
    } else {
        match references_of(commands.drop_last()) {
            Err(m) => Err(m),
            Ok((dylibs, rpaths)) => match commands.last() {
                MachoCommandView::Dylib(Ok(b)) => Ok((dylibs.push(utf8_lossy_of(b)), rpaths)),
                MachoCommandView::Rpath(Ok(b)) => Ok((dylibs, rpaths.push(utf8_lossy_of(b)))),
                MachoCommandView::Dylib(Err(m)) => Err(m),
                MachoCommandView::Rpath(Err(m)) => Err(m),
                MachoCommandView::Other => Ok((dylibs, rpaths)),
            },
        }
    }
}

/// The references of the commands read, unless the reading stopped early:
/// then, if no name before the stop failed, the message that stopped it.
pub open spec fn walk_of(commands: Seq<MachoCommandView>, stop: Option<Seq<char>>) -> Result<
    (Seq<Seq<char>>, Seq<Seq<char>>),
    Seq<char>,
> {
    match references_of(commands) {
        Err(m) => Err(m),
        Ok(found) => match stop {
            Some(m) => Err(m),
            None => Ok(found),
        },
    }
}

/// `r` is the failure to read the object at `path`, with the parser's
/// message `m`.
pub open spec fn inspect_failure<T>(r: Result<T, Error>, path: Seq<char>, m: Seq<char>) -> bool {
    r matches Err(Error::Inspect { path: p, message }) && p@ == path && message@ == m
}

/// `r` is the refusal of the object at `path`, which is not of the format
/// `expected`.
pub open spec fn format_failure<T>(r: Result<T, Error>, path: Seq<char>, expected: Seq<char>) -> bool {
    r matches Err(Error::UnexpectedFormat { path: p, expected: x }) && p@ == path && x@ == expected
}

/// What the parser makes of an ELF object's dynamic table, for its width.
pub open spec fn elf_dynamic_of(width: Width, data: Seq<u8>) -> Result<Option<Seq<DynEntryView>>, Seq<char>> {
    match width {
        Width::Bits32 => elf32_dynamic_of(data),
        Width::Bits64 => elf64_dynamic_of(data),
    }
}

/// What the parser makes of a Mach-O object's load commands, for its width.
pub open spec fn macho_commands_of(width: Width, data: Seq<u8>) -> (Seq<MachoCommandView>, Option<Seq<char>>) {
    match width {
        Width::Bits32 => macho32_commands_of(data),
        Width::Bits64 => macho64_commands_of(data),
    }
}

proof fn lemma_needed_error_sticks(entries: Seq<DynEntryView>, k: int)
    requires
        0 <= k <= entries.len(),
        needed_of(entries.take(k)) is Err,
    ensures
        needed_of(entries) == needed_of(entries.take(k)),
    decreases entries.len(),
{
    if entries.len() == k {
        assert(entries.take(k) =~= entries);
    } else {
        assert(entries.drop_last().take(k) =~= entries.take(k));
        lemma_needed_error_sticks(entries.drop_last(), k);
    }
}

proof fn lemma_references_error_sticks(commands: Seq<MachoCommandView>, k: int)
    requires
        0 <= k <= commands.len(),
        references_of(commands.take(k)) is Err,
    ensures
        references_of(commands) == references_of(commands.take(k)),
    decreases commands.len(),
{
    if commands.len() == k {
        assert(commands.take(k) =~= commands);
    } else {
        assert(commands.drop_last().take(k) =~= commands.take(k));
        lemma_references_error_sticks(commands.drop_last(), k);
    }
}

/// The sonames that the dynamic entries of the object at `path` name as
/// needed, in order; a name that could not be read is `Inspect`.
pub fn needed_names(path: &str, entries: &Vec<DynEntry>) -> (r: Result<Vec<String>, Error>)
    ensures
        match needed_of(entries@.map_values(|e: DynEntry| dyn_entry_view(e))) {
            Ok(names) => r matches Ok(v) && views(v@) == names,
            Err(m) => inspect_failure(r, path@, m),
        },
{
    let ghost all = entries@.map_values(|e: DynEntry| dyn_entry_view(e));
    let mut names: Vec<String> = Vec::new();
    assert(views(names@) =~= Seq::<Seq<char>>::empty());
    assert(all.take(0) =~= Seq::<DynEntryView>::empty());
    let n = entries.len();
    for i in 0..n
        invariant
            n == entries.len(),
            all == entries@.map_values(|e: DynEntry| dyn_entry_view(e)),
            needed_of(all.take(i as int)) == Ok::<Seq<Seq<char>>, Seq<char>>(views(names@)),
    {
        let ghost t = all.take(i + 1);
        assert(t.drop_last() =~= all.take(i as int));
        assert(t.last() == dyn_entry_view(entries@[i as int]));
        if entries[i].tag == DT_NEEDED {
            match &entries[i].name {
                Ok(b) => {
                    let ghost before = views(names@);
                    let name = utf8_lossy(b.as_slice());
                    names.push(name);
                    assert(views(names@) =~= before.push(utf8_lossy_of(b@)));
                },
                Err(m) => {
                    proof {
                        lemma_needed_error_sticks(all, i + 1);
                    }
                    return Err(Error::Inspect { path: String::from_str(path), message: m.clone() });
                },
            }
        }
    }
    assert(all.take(n as int) =~= all);
    Ok(names)
}

/// The libraries and run paths that the load commands read from the object
/// at `path` name, in order; a name that could not be read is `Inspect`, and
/// so, after the commands read, is the message that stopped the reading
/// (`stop`).
pub fn collect_references(path: &str, commands: &Vec<MachoCommand>, stop: Option<String>) -> (r:
    Result<MachoReferences, Error>)
    ensures
        match walk_of(command_views(commands@), opt_text(stop)) {
            Ok((dylibs, rpaths)) => r matches Ok(refs) && views(refs.dylibs@) == dylibs && views(
                refs.rpaths@,
            ) == rpaths,
            Err(m) => inspect_failure(r, path@, m),
        },
{
    let ghost all = command_views(commands@);
    let mut dylibs: Vec<String> = Vec::new();
    let mut rpaths: Vec<String> = Vec::new();
    assert(views(dylibs@) =~= Seq::<Seq<char>>::empty());
    assert(views(rpaths@) =~= Seq::<Seq<char>>::empty());
    assert(all.take(0) =~= Seq::<MachoCommandView>::empty());
    let n = commands.len();
    for i in 0..n
        invariant
            n == commands.len(),
            all == command_views(commands@),
            references_of(all.take(i as int)) == Ok::<(Seq<Seq<char>>, Seq<Seq<char>>), Seq<char>>(
                (views(dylibs@), views(rpaths@)),
            ),
    {
        let ghost t = all.take(i + 1);
        assert(t.drop_last() =~= all.take(i as int));
        assert(t.last() == command_view(commands@[i as int]));
        match &commands[i] {
            MachoCommand::Dylib(Ok(b)) => {
                let ghost before = views(dylibs@);
                dylibs.push(utf8_lossy(b.as_slice()));
                assert(views(dylibs@) =~= before.push(utf8_lossy_of(b@)));
            },
            MachoCommand::Rpath(Ok(b)) => {
                let ghost before = views(rpaths@);
                rpaths.push(utf8_lossy(b.as_slice()));
                assert(views(rpaths@) =~= before.push(utf8_lossy_of(b@)));
            },
            MachoCommand::Dylib(Err(m)) | MachoCommand::Rpath(Err(m)) => {
                proof {
                    lemma_references_error_sticks(all, i + 1);
                }
                return Err(Error::Inspect { path: String::from_str(path), message: m.clone() });
            },
            MachoCommand::Other => {},
        }
    }
    assert(all.take(n as int) =~= all);
    match stop {
        Some(m) => Err(Error::Inspect { path: String::from_str(path), message: m }),
        None => Ok(MachoReferences { dylibs, rpaths }),
    }
}

/// The view of an optional message.
pub open spec fn opt_text(o: Option<String>) -> Option<Seq<char>> {
    match o {
        Some(m) => Some(m@),
        None => None,
    }
}

/// The libraries and run paths a Mach-O object names.
pub struct MachoReferences {
    pub dylibs: Vec<String>,
    pub rpaths: Vec<String>,
}

/// The sonames that the ELF object at `path`, whose bytes are `data`, needs,
/// in the order of its dynamic table; none when it has no dynamic table. An
/// object the parser cannot read is `Inspect`; one of another format is
/// `UnexpectedFormat`.
pub fn elf_needed(path: &str, data: &[u8]) -> (r: Result<Vec<String>, Error>)
    ensures
        match object_format_of(data@) {
            Err(m) => inspect_failure(r, path@, m),
            Ok(f) => match elf_width(f) {
                None => format_failure(r, path@, "ELF"@),
                Some(w) => match elf_dynamic_of(w, data@) {
                    Err(m) => inspect_failure(r, path@, m),
                    Ok(None) => r matches Ok(v) && v@.len() == 0,
                    Ok(Some(entries)) => match needed_of(entries) {
                        Ok(names) => r matches Ok(v) && views(v@) == names,
                        Err(m) => inspect_failure(r, path@, m),
                    },
                },
            },
        },
{
    let format = match object_format(data) {
        Ok(f) => f,
        Err(m) => {
            return Err(Error::Inspect { path: String::from_str(path), message: m });
        },
    };
    let width = match expect_elf(path, format) {
        Ok(w) => w,
        Err(e) => {
            return Err(e);
        },
    };
    let dynamic = match width {
        Width::Bits32 => elf32_dynamic(data),
        Width::Bits64 => elf64_dynamic(data),
    };
    match dynamic {
        Err(m) => Err(Error::Inspect { path: String::from_str(path), message: m }),
        Ok(None) => Ok(Vec::new()),
        Ok(Some(entries)) => {
            assert(entries@.map_values(|e: DynEntry| dyn_entry_view(e)) == elf_dynamic_of(width, data@)->Ok_0->Some_0);
            needed_names(path, &entries)
        },
    }
}

/// The libraries and run paths that the Mach-O object at `path`, whose
/// bytes are `data`, names, in the order of its load commands. An object
/// the parser cannot read is `Inspect`; one of another format is
/// `UnexpectedFormat`.
pub fn macho_references(path: &str, data: &[u8]) -> (r: Result<MachoReferences, Error>)
    ensures
        match object_format_of(data@) {
            Err(m) => inspect_failure(r, path@, m),
            Ok(f) => match macho_width(f) {
                None => format_failure(r, path@, "Mach-O"@),
                Some(w) => match walk_of(macho_commands_of(w, data@).0, macho_commands_of(w, data@).1) {
                    Ok((dylibs, rpaths)) => r matches Ok(refs) && views(refs.dylibs@) == dylibs && views(
                        refs.rpaths@,
                    ) == rpaths,
                    Err(m) => inspect_failure(r, path@, m),
                },
            },
        },
{
    let format = match object_format(data) {
        Ok(f) => f,
        Err(m) => {
            return Err(Error::Inspect { path: String::from_str(path), message: m });
        },
    };
    let width = match expect_macho(path, format) {
        Ok(w) => w,
        Err(e) => {
            return Err(e);
        },
    };
    let mut commands: Vec<MachoCommand> = Vec::new();
    assert(command_views(commands@) =~= Seq::<MachoCommandView>::empty());
    let walked = match width {
        Width::Bits32 => macho32_commands(data, &mut commands),
        Width::Bits64 => macho64_commands(data, &mut commands),
    };
    let stop = match walked {
        Ok(()) => None,
        Err(m) => Some(m),
    };
    assert(command_views(commands@) =~= macho_commands_of(width, data@).0);
    collect_references(path, &commands, stop)
}

} // verus!
