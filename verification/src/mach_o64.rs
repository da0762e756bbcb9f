//! Loading a 64-bit ARM Mach-O executable into guest memory: mapping its
//! segments, sliding its rebased pointers, and collecting its imports,
//! exports, libraries and entry point.
//!
//! The `mach_object` crate parses the file; what the loader reads of it is
//! carried as [`Command64`] values, and [`MachO64::load_commands`] does the
//! loading over them.

use vstd::prelude::*;
use crate::a64_runtime::{state_of, write_state, MemState};
use crate::environment64::map_state;
use crate::text::chars_eq;
use crate::mem64::{read_value_spec, Mem64, ALLOCATION_START};
use crate::text::{str_chars, string_from_chars};
use crate::mach_scan::{
    bind_stream_safe, bind_stream_safe_exec, is_archive, is_archive_exec, object_safe, object_safe_exec, parse_safe,
    rebase_stream_safe, rebase_stream_safe_exec, BindKind,
};
use mach_object::{LoadCommand, MachCommand, OFile, ThreadState};

verus! {

#[verifier::external_type_specification]
#[verifier::external_body]
pub struct ExOFile(mach_object::OFile);

#[verifier::external_type_specification]
#[verifier::external_body]
pub struct ExMachCommand(mach_object::MachCommand);

/// The instruction set of a loaded image.
#[derive(Debug, Clone, Copy, PartialEq, Eq, Structural)]
pub enum Architecture {
    Arm64,
}

/// A pointer in guest memory that must be bound to the named symbol.
#[derive(Debug, Clone)]
pub struct Binding64 {
    pub address: u64,
    pub symbol: String,
}

/// A loaded executable.
#[derive(Debug)]
pub struct MachO64 {
    pub architecture: Architecture,
    pub name: String,
    /// The paths of the dynamic libraries it loads, in the file's order.
    pub dynamic_libraries: Vec<String>,
    /// The symbols it defines with their addresses, each name once: where
    /// the symbol table defines a name twice, the later value replaces the
    /// earlier.
    pub exported_symbols: Vec<(String, u64)>,
    /// Its imports, from the bind, weak bind and lazy bind streams in turn.
    pub bindings: Vec<Binding64>,
    pub entry_point_pc: Option<u64>,
    /// The address of `__TEXT`, or 0 where there is none.
    pub text_base: u64,
    /// The highest end address of its segments.
    pub last_segment_end: u64,
    pub memory: Mem64,
}

/// The Mach-O CPU type of 64-bit ARM.
pub const CPU_TYPE_ARM64: i32 = 0x0100_000c;

/// The bits of a Mach-O CPU type that give the ABI.
pub const CPU_ARCH_MASK: i32 = -0x0100_0000;

/// The ABI bits of a 64-bit CPU type.
pub const CPU_ARCH_ABI64: i32 = 0x0100_0000;

/// Mach-O magic numbers of files in the other byte order.
pub const MH_CIGAM: u32 = 0xcefa_edfe;

pub const MH_CIGAM_64: u32 = 0xcffa_edfe;

/// Size of a guest pointer.
pub const POINTER_SIZE: usize = 8;

pub const PARSE_FAILED: &'static str = "could not parse ARM64 Mach-O: ";
pub const NO_ARM64_SLICE: &'static str = "fat binary has no ARM64 slice";
pub const FAT_SLICE_OFFSET_TOO_LARGE: &'static str = "ARM64 fat slice offset is too large";
pub const FAT_SLICE_SIZE_TOO_LARGE: &'static str = "ARM64 fat slice size is too large";
pub const FAT_SLICE_OVERFLOWS: &'static str = "ARM64 fat slice range overflows";
pub const FAT_SLICE_PAST_END: &'static str = "ARM64 fat slice extends past the file";
pub const NOT_EXECUTABLE: &'static str = "ARM64 input is not an executable Mach-O";
pub const NOT_ARM64: &'static str = "Mach-O is not an ARM64 64-bit image";
pub const BIG_ENDIAN: &'static str = "ARM64 Mach-O is big-endian";
pub const SEGMENT_ADDRESS_OVERFLOWS: &'static str = "segment address overflows";
pub const SEGMENT_END_OVERFLOWS: &'static str = "segment end overflows";
pub const SEGMENT_FILE_RANGE_OVERFLOWS: &'static str = "segment file range overflows";
pub const ENCRYPTED: &'static str = "ARM64 executable is encrypted";
pub const ENTRY_OVERFLOWS: &'static str = "entry point overflows";
pub const NO_TEXT_SEGMENT: &'static str = "ARM64 LC_MAIN image has no __TEXT segment";
pub const DYLD_RANGE_OVERFLOWS: &'static str = "ARM64 dyld info range overflows";
pub const DYLD_PAST_END: &'static str = "ARM64 dyld info extends past the Mach-O file";
pub const REBASE_REFUSED: &'static str = "ARM64 rebase information cannot be decoded safely";
pub const BIND_REFUSED: &'static str = "ARM64 bind information cannot be decoded safely";
pub const WEAK_BIND_REFUSED: &'static str = "ARM64 weak bind information cannot be decoded safely";
pub const LAZY_BIND_REFUSED: &'static str = "ARM64 lazy bind information cannot be decoded safely";
pub const NEEDS_64BIT_HOST: &'static str = "ARM64 Mach-O parsing needs a 64-bit host";
pub const LOAD_COMMANDS_REFUSED: &'static str = "ARM64 Mach-O has a load command that cannot be parsed safely";
pub const REBASE_BAD_SEGMENT: &'static str = "ARM64 rebase references an invalid segment";
pub const REBASE_ADDRESS_OVERFLOWS: &'static str = "ARM64 rebase address overflows";
pub const REBASE_VALUE_OVERFLOWS: &'static str = "ARM64 rebase value overflows";
pub const BIND_BAD_SEGMENT: &'static str = "ARM64 bind references an invalid segment";
pub const BIND_ADDRESS_OVERFLOWS: &'static str = "ARM64 bind address overflows";
pub const WEAK_BIND_BAD_SEGMENT: &'static str = "ARM64 weak bind references an invalid segment";
pub const WEAK_BIND_ADDRESS_OVERFLOWS: &'static str = "ARM64 weak bind address overflows";
pub const LAZY_BIND_BAD_SEGMENT: &'static str = "ARM64 lazy bind references an invalid segment";
pub const LAZY_BIND_ADDRESS_OVERFLOWS: &'static str = "ARM64 lazy bind address overflows";
pub const BAD_SYMBOL_TABLE_OFFSET: &'static str = "invalid symbol table offset";
pub const NO_FILE_NAME: &'static str = "64-bit executable has no file name";
pub const UNREADABLE: &'static str = "Could not read 64-bit executable file";

/// The parts of a Mach-O header the loader checks.
#[derive(Debug, Clone, Copy)]
pub struct MachHeaderInfo {
    pub magic: u32,
    pub cputype: i32,
}

/// An `LC_SEGMENT_64` command.
#[derive(Debug, Clone)]
pub struct Segment64 {
    pub segname: String,
    pub vmaddr: usize,
    pub vmsize: usize,
    pub fileoff: usize,
    pub filesize: usize,
}

/// An `LC_SYMTAB` command.
#[derive(Debug, Clone, Copy)]
pub struct SymtabInfo {
    pub symoff: u32,
    pub nsyms: u32,
    pub stroff: u32,
    pub strsize: u32,
}

/// An `LC_DYLD_INFO` command: where the rebase and bind streams lie.
#[derive(Debug, Clone, Copy)]
pub struct DyldInfoRanges {
    pub rebase_off: u32,
    pub rebase_size: u32,
    pub bind_off: u32,
    pub bind_size: u32,
    pub weak_bind_off: u32,
    pub weak_bind_size: u32,
    pub lazy_bind_off: u32,
    pub lazy_bind_size: u32,
}

/// A load command as the loader reads it.
#[derive(Debug, Clone)]
pub enum Command64 {
    Segment(Segment64),
    SymTab(SymtabInfo),
    /// `LC_LOAD_DYLIB` with the library's path.
    LoadDylib(String),
    /// `LC_ENCRYPTION_INFO_64` with its crypt id.
    Encryption(u32),
    /// `LC_MAIN` with the entry point's offset in `__TEXT`.
    EntryPoint(u64),
    /// `LC_UNIXTHREAD` with an ARM64 thread state, by its program counter.
    ThreadPc(u64),
    DyldInfo(DyldInfoRanges),
    /// Any command the loader passes over.
    Other,
}

/// An `LC_SEGMENT_64` command as plain values.
pub struct SegmentView {
    pub segname: Seq<char>,
    pub vmaddr: usize,
    pub vmsize: usize,
    pub fileoff: usize,
    pub filesize: usize,
}

impl View for Segment64 {
    type V = SegmentView;

    open spec fn view(&self) -> SegmentView {
        SegmentView {
            segname: self.segname@,
            vmaddr: self.vmaddr,
            vmsize: self.vmsize,
            fileoff: self.fileoff,
            filesize: self.filesize,
        }
    }
}

/// A load command as plain values (see [`Command64`]).
pub enum CommandView {
    Segment(SegmentView),
    SymTab(SymtabInfo),
    LoadDylib(Seq<char>),
    Encryption(u32),
    EntryPoint(u64),
    ThreadPc(u64),
    DyldInfo(DyldInfoRanges),
    Other,
}

impl View for Command64 {
    type V = CommandView;

    open spec fn view(&self) -> CommandView {
        match self {
            Command64::Segment(s) => CommandView::Segment(s@),
            Command64::SymTab(t) => CommandView::SymTab(*t),
            Command64::LoadDylib(p) => CommandView::LoadDylib(p@),
            Command64::Encryption(id) => CommandView::Encryption(*id),
            Command64::EntryPoint(o) => CommandView::EntryPoint(*o),
            Command64::ThreadPc(pc) => CommandView::ThreadPc(*pc),
            Command64::DyldInfo(d) => CommandView::DyldInfo(*d),
            Command64::Other => CommandView::Other,
        }
    }
}

/// The plain values of a list of load commands.
pub open spec fn commands_view(cmds: Seq<Command64>) -> Seq<CommandView> {
    cmds.map_values(|c: Command64| c@)
}

/// A thin Mach-O file as parsed: its header's magic number and CPU type
/// and its load commands.
pub struct MachFile64 {
    pub header: MachHeaderInfo,
    pub commands: Vec<Command64>,
}

/// A thin Mach-O file as plain values.
pub struct MachView {
    pub magic: u32,
    pub cputype: i32,
    pub commands: Seq<CommandView>,
}

impl View for MachFile64 {
    type V = MachView;

    open spec fn view(&self) -> MachView {
        MachView { magic: self.header.magic, cputype: self.header.cputype, commands: commands_view(self.commands@) }
    }
}

/// One architecture's slice of a fat file: its CPU type, offset and size
/// from the fat header, and the slice's file where it is a thin Mach-O.
pub struct FatSlice {
    pub cputype: i32,
    pub offset: u64,
    pub size: u64,
    pub file: Option<MachFile64>,
}

/// A fat slice as plain values.
pub struct FatSliceView {
    pub cputype: i32,
    pub offset: u64,
    pub size: u64,
    pub file: Option<MachView>,
}

pub open spec fn opt_mach_view(f: Option<MachFile64>) -> Option<MachView> {
    match f {
        Some(m) => Some(m@),
        None => None,
    }
}

impl View for FatSlice {
    type V = FatSliceView;

    open spec fn view(&self) -> FatSliceView {
        FatSliceView { cputype: self.cputype, offset: self.offset, size: self.size, file: opt_mach_view(self.file) }
    }
}

/// A parsed object file: a thin Mach-O file, a fat file, or another kind
/// of file (an archive) that the loader does not take.
pub enum ObjectFile {
    Mach(MachFile64),
    Fat(Vec<FatSlice>),
    Other,
}

/// A parsed object file as plain values.
pub enum ObjectView {
    Mach(MachView),
    Fat(Seq<FatSliceView>),
    Other,
}

impl View for ObjectFile {
    type V = ObjectView;

    open spec fn view(&self) -> ObjectView {
        match self {
            ObjectFile::Mach(m) => ObjectView::Mach(m@),
            ObjectFile::Fat(slices) => ObjectView::Fat(slices@.map_values(|s: FatSlice| s@)),
            ObjectFile::Other => ObjectView::Other,
        }
    }
}

/// What the rebase stream of `payload` lists: per entry whether it is a
/// pointer, its segment index and its offset in the segment.
pub uninterp spec fn rebase_records(payload: Seq<u8>, ptr_size: usize) -> Seq<(bool, usize, isize)>;

/// What the bind stream of `payload` lists: per entry whether it is a
/// pointer, its segment index, its offset and the symbol's name.
pub uninterp spec fn bind_records(payload: Seq<u8>, ptr_size: usize) -> Seq<(bool, usize, isize, Seq<char>)>;

/// What the weak bind stream of `payload` lists, as for [`bind_records`].
pub uninterp spec fn weak_bind_records(payload: Seq<u8>, ptr_size: usize) -> Seq<(bool, usize, isize, Seq<char>)>;

/// What the lazy bind stream of `payload` lists: segment index, offset and
/// symbol name.
pub uninterp spec fn lazy_bind_records(payload: Seq<u8>, ptr_size: usize) -> Seq<(usize, isize, Seq<char>)>;

/// The symbols the symbol table lists, in table order, each as whether it
/// is defined in a section, its name and its value; `None` where the table
/// cannot be reached.
pub uninterp spec fn symbol_table(image: Seq<u8>, symoff: u32, nsyms: u32, stroff: u32, strsize: u32) -> Option<
    Seq<(bool, Option<Seq<char>>, usize)>,
>;

/// Whether a CPU type is of a 64-bit ABI.
pub open spec fn is_64bit_spec(cputype: i32) -> bool {
    cputype & CPU_ARCH_MASK == CPU_ARCH_ABI64
}

/// Whether a Mach-O magic number is that of the other byte order.
pub open spec fn is_bigend_spec(magic: u32) -> bool {
    magic == MH_CIGAM || magic == MH_CIGAM_64
}

/// What the loader has gathered so far.
pub struct LoadProgress {
    pub mem: MemState,
    pub dylibs: Seq<Seq<char>>,
    pub bindings: Seq<(u64, Seq<char>)>,
    pub text_base: Option<u64>,
    pub last_end: u64,
    pub entry_pc: Option<u64>,
    pub entry_off: Option<u64>,
    pub symtab: Option<SymtabInfo>,
    pub bases: Seq<u64>,
}

pub open spec fn initial_progress() -> LoadProgress {
    LoadProgress {
        mem: (Seq::empty(), Map::empty(), ALLOCATION_START),
        dylibs: Seq::empty(),
        bindings: Seq::empty(),
        text_base: None,
        last_end: 0,
        entry_pc: None,
        entry_off: None,
        symtab: None,
        bases: Seq::empty(),
    }
}

/// The message for a segment whose file range lies past the file's end.
pub open spec fn segment_past_end(segname: Seq<char>) -> Seq<char> {
    "segment "@ + segname + " extends past the Mach-O file"@
}

/// Loading a segment: its slid base is recorded and the image's end
/// raised to its end; unless it is `__PAGEZERO` or empty, it is mapped and
/// its file bytes copied in, and `__TEXT` gives the text base.
pub open spec fn segment_spec(image: Seq<u8>, p: LoadProgress, seg: SegmentView, slide: u64) -> Result<LoadProgress, Seq<char>> {
    if seg.vmaddr + slide > u64::MAX {
        Err(SEGMENT_ADDRESS_OVERFLOWS@)
    } else if seg.vmaddr + slide + seg.vmsize > u64::MAX {
        Err(SEGMENT_END_OVERFLOWS@)
    } else {
        let base = (seg.vmaddr + slide) as u64;
        let end = (base + seg.vmsize) as u64;
        let p1 = LoadProgress { bases: p.bases.push(base), last_end: if end > p.last_end { end } else { p.last_end }, ..p };
        if seg.segname == "__PAGEZERO"@ {
            Ok(p1)
        } else {
            let p2 = LoadProgress { text_base: if seg.segname == "__TEXT"@ { Some(base) } else { p.text_base }, ..p1 };
            if seg.vmsize == 0 {
                Ok(p2)
            } else {
                match map_state(p2.mem, base, seg.vmsize as u64) {
                    Err(e) => Err(e),
                    Ok(m1) => if seg.filesize == 0 {
                        Ok(LoadProgress { mem: m1, ..p2 })
                    } else if seg.fileoff + seg.filesize > usize::MAX {
                        Err(SEGMENT_FILE_RANGE_OVERFLOWS@)
                    } else if seg.fileoff + seg.filesize > image.len() {
                        Err(segment_past_end(seg.segname))
                    } else {
                        match write_state(m1, base, image.subrange(seg.fileoff as int, seg.fileoff + seg.filesize)) {
                            Err(e) => Err(e),
                            Ok(m2) => Ok(LoadProgress { mem: m2, ..p2 }),
                        }
                    },
                }
            }
        }
    }
}

/// The bytes `offset .. offset + size` of `bytes`.
pub open spec fn command_bytes_spec(bytes: Seq<u8>, offset: u32, size: u32) -> Result<Seq<u8>, Seq<char>> {
    if offset + size > usize::MAX {
        Err(DYLD_RANGE_OVERFLOWS@)
    } else if offset + size > bytes.len() {
        Err(DYLD_PAST_END@)
    } else {
        Ok(bytes.subrange(offset as int, offset + size))
    }
}

/// Applying the rebase entries `recs[i..]`: each pointer entry's 64-bit
/// value in memory is moved by `slide`.
pub open spec fn rebase_spec(p: LoadProgress, recs: Seq<(bool, usize, isize)>, slide: u64, i: int) -> Result<LoadProgress, Seq<char>>
    decreases recs.len() - i,
{
    if i < 0 || i >= recs.len() {
        Ok(p)
    } else {
        let (pointer, segment, offset) = recs[i];
        if !pointer {
            rebase_spec(p, recs, slide, i + 1)
        } else if segment >= p.bases.len() {
            Err(REBASE_BAD_SEGMENT@)
        } else if p.bases[segment as int] + (offset as u64) > u64::MAX {
            Err(REBASE_ADDRESS_OVERFLOWS@)
        } else {
            let address = (p.bases[segment as int] + (offset as u64)) as u64;
            match read_value_spec(p.mem.0, address, 8, |b: Seq<u8>| vstd::bytes::spec_u64_from_le_bytes(b)) {
                Err(e) => Err(e),
                Ok(value) => if value + slide > u64::MAX {
                    Err(REBASE_VALUE_OVERFLOWS@)
                } else {
                    match write_state(p.mem, address, vstd::bytes::spec_u64_to_le_bytes((value + slide) as u64)) {
                        Err(e) => Err(e),
                        Ok(m) => rebase_spec(LoadProgress { mem: m, ..p }, recs, slide, i + 1),
                    }
                },
            }
        }
    }
}

/// Recording the bind entries `recs[i..]`: each pointer entry becomes a
/// binding at its segment's base plus its offset.
pub open spec fn bind_spec(
    p: LoadProgress,
    recs: Seq<(bool, usize, isize, Seq<char>)>,
    bad_segment: Seq<char>,
    overflow: Seq<char>,
    i: int,
) -> Result<LoadProgress, Seq<char>>
    decreases recs.len() - i,
{
    if i < 0 || i >= recs.len() {
        Ok(p)
    } else {
        let (pointer, segment, offset, name) = recs[i];
        if !pointer {
            bind_spec(p, recs, bad_segment, overflow, i + 1)
        } else if segment >= p.bases.len() {
            Err(bad_segment)
        } else if p.bases[segment as int] + (offset as u64) > u64::MAX {
            Err(overflow)
        } else {
            let address = (p.bases[segment as int] + (offset as u64)) as u64;
            bind_spec(LoadProgress { bindings: p.bindings.push((address, name)), ..p }, recs, bad_segment, overflow, i + 1)
        }
    }
}

/// Lazy bind entries as bind entries: all of them are pointers.
pub open spec fn lazy_as_bind(recs: Seq<(usize, isize, Seq<char>)>) -> Seq<(bool, usize, isize, Seq<char>)> {
    recs.map_values(|r: (usize, isize, Seq<char>)| (true, r.0, r.1, r.2))
}

/// The entries of the rebase stream `rb`, where `mach_object` can decode
/// it safely (see [`rebase_stream_safe`]).
pub open spec fn rebase_stream(rb: Seq<u8>) -> Result<Seq<(bool, usize, isize)>, Seq<char>> {
    if rebase_stream_safe(rb, POINTER_SIZE) {
        Ok(rebase_records(rb, POINTER_SIZE))
    } else {
        Err(REBASE_REFUSED@)
    }
}

/// The entries of the bind stream `bb` of kind `kind`, where `mach_object`
/// can decode it safely (see [`bind_stream_safe`]); lazy binds as pointer
/// binds.
pub open spec fn bind_stream(bb: Seq<u8>, kind: BindKind) -> Result<Seq<(bool, usize, isize, Seq<char>)>, Seq<char>> {
    if !bind_stream_safe(bb, POINTER_SIZE, kind) {
        Err(
            match kind {
                BindKind::Bind => BIND_REFUSED@,
                BindKind::Weak => WEAK_BIND_REFUSED@,
                BindKind::Lazy => LAZY_BIND_REFUSED@,
            },
        )
    } else {
        Ok(
            match kind {
                BindKind::Bind => bind_records(bb, POINTER_SIZE),
                BindKind::Weak => weak_bind_records(bb, POINTER_SIZE),
                BindKind::Lazy => lazy_as_bind(lazy_bind_records(bb, POINTER_SIZE)),
            },
        )
    }
}

/// The bytes of one bind stream and its entries.
pub open spec fn bind_range_spec(image: Seq<u8>, offset: u32, size: u32, kind: BindKind) -> Result<
    Seq<(bool, usize, isize, Seq<char>)>,
    Seq<char>,
> {
    match command_bytes_spec(image, offset, size) {
        Err(e) => Err(e),
        Ok(bb) => bind_stream(bb, kind),
    }
}

/// Processing an `LC_DYLD_INFO` command: rebases, then binds, weak binds
/// and lazy binds; a stream that cannot be decoded safely is refused.
pub open spec fn dyld_info_spec(image: Seq<u8>, p: LoadProgress, d: DyldInfoRanges, slide: u64) -> Result<LoadProgress, Seq<char>> {
    match command_bytes_spec(image, d.rebase_off, d.rebase_size) {
        Err(e) => Err(e),
        Ok(rb) => match rebase_stream(rb) {
            Err(e) => Err(e),
            Ok(rebases) => match rebase_spec(p, rebases, slide, 0) {
                Err(e) => Err(e),
                Ok(p1) => match bind_range_spec(image, d.bind_off, d.bind_size, BindKind::Bind) {
                    Err(e) => Err(e),
                    Ok(binds) => match bind_spec(p1, binds, BIND_BAD_SEGMENT@, BIND_ADDRESS_OVERFLOWS@, 0) {
                        Err(e) => Err(e),
                        Ok(p2) => match bind_range_spec(image, d.weak_bind_off, d.weak_bind_size, BindKind::Weak) {
                            Err(e) => Err(e),
                            Ok(weak) => match bind_spec(p2, weak, WEAK_BIND_BAD_SEGMENT@, WEAK_BIND_ADDRESS_OVERFLOWS@, 0) {
                                Err(e) => Err(e),
                                Ok(p3) => match bind_range_spec(image, d.lazy_bind_off, d.lazy_bind_size, BindKind::Lazy) {
                                    Err(e) => Err(e),
                                    Ok(lazy) => bind_spec(p3, lazy, LAZY_BIND_BAD_SEGMENT@, LAZY_BIND_ADDRESS_OVERFLOWS@, 0),
                                },
                            },
                        },
                    },
                },
            },
        },
    }
}

/// Processing one load command.
pub open spec fn command_spec(image: Seq<u8>, p: LoadProgress, c: CommandView, slide: u64) -> Result<LoadProgress, Seq<char>> {
    match c {
        CommandView::Segment(seg) => segment_spec(image, p, seg, slide),
        CommandView::SymTab(t) => Ok(LoadProgress { symtab: Some(t), ..p }),
        CommandView::LoadDylib(path) => Ok(LoadProgress { dylibs: p.dylibs.push(path), ..p }),
        CommandView::Encryption(id) => if id != 0 {
            Err(ENCRYPTED@)
        } else {
            Ok(p)
        },
        CommandView::EntryPoint(offset) => Ok(LoadProgress { entry_off: Some(offset), ..p }),
        CommandView::ThreadPc(pc) => if pc + slide > u64::MAX {
            Err(ENTRY_OVERFLOWS@)
        } else {
            Ok(LoadProgress { entry_pc: Some((pc + slide) as u64), ..p })
        },
        CommandView::DyldInfo(d) => dyld_info_spec(image, p, d, slide),
        CommandView::Other => Ok(p),
    }
}

/// Processing the load commands `cmds[i..]` in order.
pub open spec fn commands_spec(image: Seq<u8>, cmds: Seq<CommandView>, slide: u64, i: int, p: LoadProgress) -> Result<
    LoadProgress,
    Seq<char>,
>
    decreases cmds.len() - i,
{
    if i < 0 || i >= cmds.len() {
        Ok(p)
    } else {
        match command_spec(image, p, cmds[i], slide) {
            Err(e) => Err(e),
            Ok(p1) => commands_spec(image, cmds, slide, i + 1, p1),
        }
    }
}

/// The entry point: from `LC_MAIN` relative to `__TEXT` where there is
/// one, else from the thread state.
pub open spec fn entry_spec(p: LoadProgress) -> Result<Option<u64>, Seq<char>> {
    match p.entry_off {
        None => Ok(p.entry_pc),
        Some(offset) => match p.text_base {
            None => Err(NO_TEXT_SEGMENT@),
            Some(text) => if text + offset > u64::MAX {
                Err(ENTRY_OVERFLOWS@)
            } else {
                Ok(Some((text + offset) as u64))
            },
        },
    }
}

/// The exported symbols, their values moved by `slide`.
pub open spec fn exports_spec(image: Seq<u8>, symtab: Option<SymtabInfo>, slide: u64) -> Result<Seq<(Seq<char>, u64)>, Seq<char>> {
    match symtab {
        None => Ok(Seq::empty()),
        Some(t) => match symbol_table_read(image, t) {
            None => Err(BAD_SYMBOL_TABLE_OFFSET@),
            Some(syms) => Ok(exports_of(syms, slide, syms.len() as int)),
        },
    }
}

/// The string table size the symbols are read with: the table's own,
/// cut where it runs past the image's end so that every name offset below
/// it starts inside the image or at its end.
pub open spec fn readable_strsize(len: nat, stroff: u32, strsize: u32) -> u32 {
    if stroff + strsize <= len + 1 {
        strsize
    } else if stroff <= len {
        (len - stroff + 1) as u32
    } else {
        1
    }
}

/// The symbols of the table `t` of `image`. Where the string table runs
/// past the image's end, it is read as ending there: a symbol whose name
/// would start past the end is out of range and ends the table, where
/// `mach_object` would slice past the image and panic.
pub open spec fn symbol_table_read(image: Seq<u8>, t: SymtabInfo) -> Option<Seq<(bool, Option<Seq<char>>, usize)>> {
    symbol_table(image, t.symoff, t.nsyms, t.stroff, readable_strsize(image.len(), t.stroff, t.strsize))
}

/// Where the export named `name` stands, if one does.
pub open spec fn export_index(ex: Seq<(Seq<char>, u64)>, name: Seq<char>) -> Option<int> {
    if exists|i: int| 0 <= i < ex.len() && ex[i].0 == name {
        Some(choose|i: int| 0 <= i < ex.len() && ex[i].0 == name)
    } else {
        None
    }
}

/// `ex` with `name` bound to `value`: the entry for `name` replaced where
/// there is one, else a new entry at the end.
pub open spec fn insert_export(ex: Seq<(Seq<char>, u64)>, name: Seq<char>, value: u64) -> Seq<(Seq<char>, u64)> {
    match export_index(ex, name) {
        Some(i) => ex.update(i, (name, value)),
        None => ex.push((name, value)),
    }
}

/// No name occurs twice among the exports.
pub open spec fn names_unique(ex: Seq<(Seq<char>, u64)>) -> bool {
    forall|i: int, j: int| 0 <= i < ex.len() && 0 <= j < ex.len() && i != j ==> #[trigger] ex[i].0 != #[trigger] ex[j].0
}

/// A symbol's value moved by `slide`.
pub open spec fn moved_value(value: usize, slide: u64) -> u64 {
    vstd::wrapping::u64_specs::wrapping_add(value as u64, slide)
}

/// The exports the symbols `syms[..n]` give: each symbol defined in a
/// section and named binds its name to its value moved by `slide`, a later
/// symbol replacing an earlier one of the same name.
pub open spec fn exports_of(syms: Seq<(bool, Option<Seq<char>>, usize)>, slide: u64, n: int) -> Seq<(Seq<char>, u64)>
    decreases n,
{
    if n <= 0 {
        Seq::empty()
    } else {
        let prev = exports_of(syms, slide, n - 1);
        let s = syms[n - 1];
        if s.0 && s.1 is Some {
            insert_export(prev, s.1->Some_0, moved_value(s.2, slide))
        } else {
            prev
        }
    }
}

/// Loading the image `image` with load commands `cmds` at `slide`: what
/// the commands gather, the entry point and the exports.
pub open spec fn load_spec(image: Seq<u8>, cmds: Seq<CommandView>, slide: u64) -> Result<
    (LoadProgress, Option<u64>, Seq<(Seq<char>, u64)>),
    Seq<char>,
> {
    match commands_spec(image, cmds, slide, 0, initial_progress()) {
        Err(e) => Err(e),
        Ok(p) => match entry_spec(p) {
            Err(e) => Err(e),
            Ok(entry) => match exports_spec(image, p.symtab, slide) {
                Err(e) => Err(e),
                Ok(exports) => Ok((p, entry, exports)),
            },
        },
    }
}

impl MachO64 {
    /// Whether this is the executable named `name` that loading gave as
    /// `loaded`.
    pub open spec fn is_loaded(&self, name: Seq<char>, loaded: (LoadProgress, Option<u64>, Seq<(Seq<char>, u64)>)) -> bool {
        let (p, entry, exports) = loaded;
        &&& self.architecture == Architecture::Arm64
        &&& self.name@ == name
        &&& self.dynamic_libraries.deep_view() == p.dylibs
        &&& self.bindings@.map_values(|b: Binding64| (b.address, b.symbol@)) == p.bindings
        &&& self.exported_symbols.deep_view() == exports
        &&& self.entry_point_pc == entry
        &&& self.text_base == match p.text_base {
            Some(t) => t,
            None => 0,
        }
        &&& self.last_segment_end == p.last_end
        &&& self.memory.wf()
        &&& state_of(&self.memory) == p.mem
    }
}

/// Whether `r` is what loading the executable `name` as `expected` says:
/// the executable it loaded, or its error.
#[verifier::opaque]
pub open spec fn load_matches(
    r: Result<MachO64, String>,
    name: Seq<char>,
    expected: Result<(LoadProgress, Option<u64>, Seq<(Seq<char>, u64)>), Seq<char>>,
) -> bool {
    match expected {
        Ok(loaded) => r is Ok && r->Ok_0.is_loaded(name, loaded),
        Err(e) => r is Err && r->Err_0@ == e,
    }
}

/// Loading a thin image: it must be a little-endian 64-bit ARM image,
/// whose load commands are then loaded.
#[verifier::opaque]
pub open spec fn image_spec(image: Seq<u8>, m: MachView, slide: u64) -> Result<
    (LoadProgress, Option<u64>, Seq<(Seq<char>, u64)>),
    Seq<char>,
> {
    if m.cputype != CPU_TYPE_ARM64 || !is_64bit_spec(m.cputype) {
        Err(NOT_ARM64@)
    } else if is_bigend_spec(m.magic) {
        Err(BIG_ENDIAN@)
    } else {
        load_spec(image, m.commands, slide)
    }
}

/// Loading a parsed object file whose bytes are `bytes`: a thin file as it
/// is; of a fat file the first ARM64 slice, which must lie inside the file
/// and be a thin file; nothing else.
pub open spec fn object_spec(bytes: Seq<u8>, obj: ObjectView, slide: u64) -> Result<
    (LoadProgress, Option<u64>, Seq<(Seq<char>, u64)>),
    Seq<char>,
> {
    match obj {
        ObjectView::Mach(m) => image_spec(bytes, m, slide),
        ObjectView::Other => Err(NOT_EXECUTABLE@),
        ObjectView::Fat(slices) => fat_spec(bytes, slices, slide),
    }
}

/// Loading a fat file whose bytes are `bytes`: its first ARM64 slice,
/// which must lie inside the file and be a thin file.
pub open spec fn fat_spec(bytes: Seq<u8>, slices: Seq<FatSliceView>, slide: u64) -> Result<
    (LoadProgress, Option<u64>, Seq<(Seq<char>, u64)>),
    Seq<char>,
> {
    match first_arm64(slices.map_values(|s: FatSliceView| fat_slice_triple(s))) {
        None => Err(NO_ARM64_SLICE@),
        Some(i) => match slice_range_spec(bytes.len(), fat_slice_triple(slices[i])) {
            Err(e) => Err(e),
            Ok((start, end)) => match slices[i].file {
                None => Err(NOT_EXECUTABLE@),
                Some(m) => image_spec(bytes.subrange(start, end), m, slide),
            },
        },
    }
}

/// Whether the host is little-endian (vstd's [`vstd::endian::endianness`]).
pub open spec fn host_little_endian() -> bool {
    vstd::endian::endianness() == vstd::endian::Endian::Little
}

/// Loading the file whose bytes are `bytes`: an archive is no executable;
/// a file that `mach_object` cannot parse safely on this host is refused;
/// anything else is what `mach_object` parses out of it, loaded.
pub open spec fn bytes_spec(bytes: Seq<u8>, slide: u64) -> Result<
    (LoadProgress, Option<u64>, Seq<(Seq<char>, u64)>),
    Seq<char>,
> {
    if usize::BITS != 64 {
        Err(NEEDS_64BIT_HOST@)
    } else if is_archive(bytes) {
        Err(NOT_EXECUTABLE@)
    } else if !object_safe(bytes, host_little_endian()) {
        Err(LOAD_COMMANDS_REFUSED@)
    } else {
        match parsed_object(bytes, host_little_endian()) {
            Err(e) => Err(PARSE_FAILED@ + e),
            Ok(obj) => object_spec(bytes, obj, slide),
        }
    }
}

/// What `mach_object::OFile::parse` gives for `bytes` on a host of byte
/// order `host_little_endian` (it reads the magic number in the host's
/// order): the parsed file as plain values (see [`parse_object_file`]) or
/// the text its error displays.
pub uninterp spec fn parsed_object(bytes: Seq<u8>, host_little_endian: bool) -> Result<ObjectView, Seq<char>>;

/// `u16::from_ne_bytes([1, 0])`: 1 on a little-endian host, 256 on a
/// big-endian one. Which of the two is vstd's `endianness()`.
#[verifier::external_body]
fn native_u16_of_one_zero() -> (r: u16)
    ensures
        r == 1 || r == 256,
        (r == 1) == host_little_endian(),
{
    u16::from_ne_bytes([1, 0])
}

/// Parses `bytes` with `mach_object::OFile::parse` and gives the parsed
/// file as plain values: a fat file by its slices, a thin Mach-O file by
/// its header and load commands (see [`command_of`]), any other file as
/// `Other`. The parse reads nothing but `bytes` and the host's byte order,
/// so what it gives is named [`parsed_object`]. The bytes must be safe to
/// parse on a 64-bit host (see [`parse_safe`]): the crate subtracts a
/// command's name offset from a constant, and an `LC_RPATH` name offset
/// from its size, without checking.
#[verifier::external_body]
fn parse_object_file(bytes: &[u8]) -> (r: Result<ObjectFile, String>)
    requires
        parse_safe(bytes@, host_little_endian()),
    ensures
        match r {
            Ok(f) => parsed_object(bytes@, host_little_endian()) == Ok::<ObjectView, Seq<char>>(f@),
            Err(e) => parsed_object(bytes@, host_little_endian()) == Err::<ObjectView, Seq<char>>(e@),
        },
{
    let mut cursor = std::io::Cursor::new(bytes);
    match OFile::parse(&mut cursor) {
        Ok(file) => Ok(object_of(file)),
        Err(e) => Err(e.to_string()),
    }
}

/// Converts a parsed `mach_object::OFile`: a `FatFile` to its slices, each
/// with its CPU type, offset and size from its fat header entry and its
/// file by [`mach_of`]; a `MachFile` by [`mach_of`]; any other file to
/// `Other`. It is the conversion of [`parse_object_file`]'s result.
#[verifier::external_body]
fn object_of(file: OFile) -> ObjectFile {
    match file {
        OFile::FatFile { files, .. } => ObjectFile::Fat(
            files.into_iter().map(|(arch, f)| FatSlice { cputype: arch.cputype, offset: arch.offset, size: arch.size, file: mach_of(f) }).collect(),
        ),
        other => match mach_of(other) {
            Some(m) => ObjectFile::Mach(m),
            None => ObjectFile::Other,
        },
    }
}

/// Converts a parsed `mach_object::OFile::MachFile` to its header's magic
/// number and CPU type and its load commands, each by [`command_of`];
/// `None` for any other kind of file. It is the conversion of
/// [`parse_object_file`]'s result.
#[verifier::external_body]
fn mach_of(file: OFile) -> Option<MachFile64> {
    match file {
        OFile::MachFile { header, commands } => Some(MachFile64 {
            header: MachHeaderInfo { magic: header.magic, cputype: header.cputype },
            commands: commands.iter().map(command_of).collect(),
        }),
        _ => None,
    }
}

/// Converts a parsed `mach_object::LoadCommand` to the fields the loader
/// reads, one arm per variant it reads (`UnixThread` only with an ARM64
/// thread state); `DyldInfo` and every other command by
/// [`dyld_command_of`]. It is the conversion of
/// [`parse_object_file`]'s result.
#[verifier::external_body]
fn command_of(command: &MachCommand) -> Command64 {
    match command.0 {
        LoadCommand::Segment64 { ref segname, vmaddr, vmsize, fileoff, filesize, .. } => {
            Command64::Segment(Segment64 { segname: segname.clone(), vmaddr, vmsize, fileoff, filesize })
        },
        LoadCommand::SymTab { symoff, nsyms, stroff, strsize } => Command64::SymTab(SymtabInfo { symoff, nsyms, stroff, strsize }),
        LoadCommand::LoadDyLib(ref lib) => Command64::LoadDylib(lib.name.to_string()),
        LoadCommand::EncryptionInfo64 { id, .. } => Command64::Encryption(id),
        LoadCommand::EntryPoint { entryoff, .. } => Command64::EntryPoint(entryoff),
        LoadCommand::UnixThread { state: ThreadState::Arm64 { __pc, .. }, .. } => Command64::ThreadPc(__pc),
        _ => dyld_command_of(command),
    }
}

/// Converts a parsed `LoadCommand::DyldInfo` to its stream offsets and
/// sizes, and every command [`command_of`] does not read to `Other`.
#[verifier::external_body]
fn dyld_command_of(command: &MachCommand) -> Command64 {
    match command.0 {
        LoadCommand::DyldInfo { rebase_off, rebase_size, bind_off, bind_size, weak_bind_off, weak_bind_size, lazy_bind_off, lazy_bind_size, .. } => {
            Command64::DyldInfo(DyldInfoRanges { rebase_off, rebase_size, bind_off, bind_size, weak_bind_off, weak_bind_size, lazy_bind_off, lazy_bind_size })
        },
        _ => Command64::Other,
    }
}

/// The entries that `mach_object::Rebase::parse(payload, ptr_size)`
/// yields, each as whether its type is `Pointer`, its segment index and its
/// offset; named [`rebase_records`]. The stream must pass
/// [`rebase_stream_safe`]: the decoder's `isize` offset arithmetic
/// overflows on some crafted streams, and it expands every repeat count
/// into as many entries.
#[verifier::external_body]
fn rebase_entries(payload: &[u8], ptr_size: usize) -> (r: Vec<(bool, usize, isize)>)
    requires
        rebase_stream_safe(payload@, ptr_size),
    ensures
        r.deep_view() == rebase_records(payload@, ptr_size),
{
    mach_object::Rebase::parse(payload, ptr_size).map(
        |s| (matches!(s.symbol_type, mach_object::BindSymbolType::Pointer), s.segment_index, s.symbol_offset),
    ).collect()
}

/// The entries that `mach_object::Bind::parse(payload, ptr_size)` yields,
/// as whether the type is `Pointer`, segment index, offset and name; named
/// [`bind_records`]. The stream must pass [`bind_stream_safe`], as for
/// [`rebase_entries`].
#[verifier::external_body]
fn bind_entries(payload: &[u8], ptr_size: usize) -> (r: Vec<(bool, usize, isize, String)>)
    requires
        bind_stream_safe(payload@, ptr_size, BindKind::Bind),
    ensures
        r.deep_view() == bind_records(payload@, ptr_size),
{
    mach_object::Bind::parse(payload, ptr_size).map(
        |s| (matches!(s.symbol_type, mach_object::BindSymbolType::Pointer), s.segment_index, s.symbol_offset, s.name),
    ).collect()
}

/// The entries that `mach_object::WeakBind::parse(payload, ptr_size)`
/// yields, as for [`bind_entries`]; named [`weak_bind_records`].
#[verifier::external_body]
fn weak_bind_entries(payload: &[u8], ptr_size: usize) -> (r: Vec<(bool, usize, isize, String)>)
    requires
        bind_stream_safe(payload@, ptr_size, BindKind::Weak),
    ensures
        r.deep_view() == weak_bind_records(payload@, ptr_size),
{
    mach_object::WeakBind::parse(payload, ptr_size).map(
        |s| (matches!(s.symbol_type, mach_object::BindSymbolType::Pointer), s.segment_index, s.symbol_offset, s.name),
    ).collect()
}

/// The entries that `mach_object::LazyBind::parse(payload, ptr_size)`
/// yields, as segment index, offset and name; named [`lazy_bind_records`].
/// The stream must pass [`bind_stream_safe`], as for [`rebase_entries`].
#[verifier::external_body]
fn lazy_bind_entries(payload: &[u8], ptr_size: usize) -> (r: Vec<(usize, isize, String)>)
    requires
        bind_stream_safe(payload@, ptr_size, BindKind::Lazy),
    ensures
        r.deep_view() == lazy_bind_records(payload@, ptr_size),
{
    mach_object::LazyBind::parse(payload, ptr_size).map(|s| (s.segment_index, s.symbol_offset, s.name)).collect()
}

/// The symbols that `mach_object::SymbolIter` reads from the little-endian
/// 64-bit symbol table at `symoff` of `image`, one entry per symbol: a
/// `Symbol::Defined` as `true`, its name and its `entry`, any other symbol
/// as `(false, None, 0)`; `None` where the cursor cannot be placed there.
/// The iterator is given no sections, as names and values do not depend on
/// them. Named [`symbol_table`]. Every name offset below `strsize` but 0
/// must start inside the image or at its end: the crate slices the image
/// there without checking.
#[verifier::external_body]
fn symbol_entries(image: &[u8], symoff: u32, nsyms: u32, stroff: u32, strsize: u32) -> (r: Option<Vec<(bool, Option<String>, usize)>>)
    requires
        strsize <= 1 || stroff + strsize <= image@.len() + 1,
    ensures
        r.deep_view() == symbol_table(image@, symoff, nsyms, stroff, strsize),
{
    let mut cursor = std::io::Cursor::new(image);
    if std::io::Seek::seek(&mut cursor, std::io::SeekFrom::Start(symoff as u64)).is_err() {
        return None;
    }
    let symbols = mach_object::SymbolIter::new(&mut cursor, Vec::new(), nsyms, stroff, strsize, false, true);
    Some(symbols.map(|s| match s {
        mach_object::Symbol::Defined { name, entry, .. } => (true, name.map(|n| n.to_string()), entry),
        _ => (false, None, 0),
    }).collect())
}

/// Whether `s` is the text `lit`.
fn string_is(s: &String, lit: &str) -> (r: bool)
    ensures
        r == (s@ == lit@),
{
    let a = str_chars(s.as_str());
    let b = str_chars(lit);
    chars_eq(a.as_slice(), b.as_slice())
}

/// The text `prefix`, then `middle`, then `suffix`.
fn joined(prefix: &str, middle: &str, suffix: &str) -> (r: String)
    ensures
        r@ == prefix@ + middle@ + suffix@,
{
    let mut chars = str_chars(prefix);
    let mut m = str_chars(middle);
    let mut t = str_chars(suffix);
    chars.append(&mut m);
    chars.append(&mut t);
    string_from_chars(chars.as_slice())
}

pub fn is_64bit(cputype: i32) -> (r: bool)
    ensures
        r == is_64bit_spec(cputype),
{
    cputype & CPU_ARCH_MASK == CPU_ARCH_ABI64
}

pub fn is_bigend(magic: u32) -> (r: bool)
    ensures
        r == is_bigend_spec(magic),
{
    magic == MH_CIGAM || magic == MH_CIGAM_64
}

/// What a result of a loading step says, against what the step's spec
/// says it gives.
pub open spec fn step_matches(r: Result<(), String>, after: LoadProgress, expected: Result<LoadProgress, Seq<char>>) -> bool {
    match expected {
        Ok(p) => r is Ok && after == p,
        Err(e) => r is Err && r->Err_0@ == e,
    }
}

/// The bytes `offset .. offset + size` of `bytes`.
fn command_bytes<'a>(bytes: &'a [u8], offset: u32, size: u32) -> (r: Result<&'a [u8], String>)
    ensures
        match command_bytes_spec(bytes@, offset, size) {
            Ok(s) => r is Ok && r->Ok_0@ == s,
            Err(e) => r is Err && r->Err_0@ == e,
        },
{
    let start = offset as usize;
    let length = size as usize;
    let end = match start.checked_add(length) {
        Some(end) => end,
        None => return Err(DYLD_RANGE_OVERFLOWS.to_owned()),
    };
    if end > bytes.len() {
        return Err(DYLD_PAST_END.to_owned());
    }
    Ok(vstd::slice::slice_subrange(bytes, start, end))
}

/// What the loader has gathered so far (see [`LoadProgress`]).
struct Loader {
    memory: Mem64,
    dylibs: Vec<String>,
    bindings: Vec<Binding64>,
    text_base: Option<u64>,
    last_end: u64,
    entry_pc: Option<u64>,
    entry_off: Option<u64>,
    symtab: Option<SymtabInfo>,
    bases: Vec<u64>,
}

impl Loader {
    spec fn progress(&self) -> LoadProgress {
        LoadProgress {
            mem: state_of(&self.memory),
            dylibs: self.dylibs.deep_view(),
            bindings: self.bindings@.map_values(|b: Binding64| (b.address, b.symbol@)),
            text_base: self.text_base,
            last_end: self.last_end,
            entry_pc: self.entry_pc,
            entry_off: self.entry_off,
            symtab: self.symtab,
            bases: self.bases@,
        }
    }

    fn new() -> (l: Self)
        ensures
            l.memory.wf(),
            l.progress() == initial_progress(),
    {
        let l = Loader {
            memory: Mem64::new(),
            dylibs: Vec::new(),
            bindings: Vec::new(),
            text_base: None,
            last_end: 0,
            entry_pc: None,
            entry_off: None,
            symtab: None,
            bases: Vec::new(),
        };
        assert(l.dylibs.deep_view() =~= Seq::<Seq<char>>::empty());
        assert(l.bindings@.map_values(|b: Binding64| (b.address, b.symbol@)) =~= Seq::<(u64, Seq<char>)>::empty());
        l
    }

    fn load_segment(&mut self, image: &[u8], seg: &Segment64, slide: u64) -> (r: Result<(), String>)
        requires
            old(self).memory.wf(),
        ensures
            final(self).memory.wf(),
            step_matches(r, final(self).progress(), segment_spec(image@, old(self).progress(), seg@, slide)),
    {
        let base = match (seg.vmaddr as u64).checked_add(slide) {
            Some(base) => base,
            None => return Err(SEGMENT_ADDRESS_OVERFLOWS.to_owned()),
        };
        let end = match base.checked_add(seg.vmsize as u64) {
            Some(end) => end,
            None => return Err(SEGMENT_END_OVERFLOWS.to_owned()),
        };
        self.bases.push(base);
        if end > self.last_end {
            self.last_end = end;
        }
        if string_is(&seg.segname, "__PAGEZERO") {
            return Ok(());
        }
        if string_is(&seg.segname, "__TEXT") {
            self.text_base = Some(base);
        }
        if seg.vmsize == 0 {
            return Ok(());
        }
        if let Err(e) = self.memory.map_zeroed(base, seg.vmsize as u64) {
            return Err(e.to_owned());
        }
        if seg.filesize != 0 {
            let file_end = match seg.fileoff.checked_add(seg.filesize) {
                Some(file_end) => file_end,
                None => return Err(SEGMENT_FILE_RANGE_OVERFLOWS.to_owned()),
            };
            if file_end > image.len() {
                return Err(joined("segment ", seg.segname.as_str(), " extends past the Mach-O file"));
            }
            let source = vstd::slice::slice_subrange(image, seg.fileoff, file_end);
            if let Err(e) = self.memory.write_bytes(base, source) {
                return Err(e.to_owned());
            }
        }
        Ok(())
    }

    fn apply_rebases(&mut self, recs: &Vec<(bool, usize, isize)>, slide: u64) -> (r: Result<(), String>)
        requires
            old(self).memory.wf(),
        ensures
            final(self).memory.wf(),
            step_matches(r, final(self).progress(), rebase_spec(old(self).progress(), recs.deep_view(), slide, 0)),
    {
        let ghost all = recs.deep_view();
        assert(all =~= recs@);
        let mut i: usize = 0;
        while i < recs.len()
            invariant
                self.memory.wf(),
                i <= recs@.len(),
                all == recs.deep_view(),
                all == recs@,
                rebase_spec(old(self).progress(), all, slide, 0) == rebase_spec(self.progress(), all, slide, i as int),
            decreases recs@.len() - i,
        {
            let (pointer, segment, offset) = recs[i];
            if pointer {
                if segment >= self.bases.len() {
                    return Err(REBASE_BAD_SEGMENT.to_owned());
                }
                let address = match self.bases[segment].checked_add(offset as u64) {
                    Some(address) => address,
                    None => return Err(REBASE_ADDRESS_OVERFLOWS.to_owned()),
                };
                let value = match self.memory.read_u64(address) {
                    Ok(value) => value,
                    Err(e) => return Err(e.to_owned()),
                };
                let moved = match value.checked_add(slide) {
                    Some(moved) => moved,
                    None => return Err(REBASE_VALUE_OVERFLOWS.to_owned()),
                };
                if let Err(e) = self.memory.write_u64(address, moved) {
                    return Err(e.to_owned());
                }
            }
            i = i + 1;
        }
        Ok(())
    }

    fn add_bindings(&mut self, recs: &Vec<(bool, usize, isize, String)>, bad_segment: &str, overflow: &str) -> (r: Result<(), String>)
        requires
            old(self).memory.wf(),
        ensures
            final(self).memory.wf(),
            step_matches(r, final(self).progress(), bind_spec(old(self).progress(), recs.deep_view(), bad_segment@, overflow@, 0)),
    {
        let ghost all = recs.deep_view();
        let mut i: usize = 0;
        while i < recs.len()
            invariant
                self.memory.wf(),
                i <= recs@.len(),
                all == recs.deep_view(),
                bind_spec(old(self).progress(), all, bad_segment@, overflow@, 0) == bind_spec(
                    self.progress(),
                    all,
                    bad_segment@,
                    overflow@,
                    i as int,
                ),
            decreases recs@.len() - i,
        {
            let pointer = recs[i].0;
            let segment = recs[i].1;
            let offset = recs[i].2;
            if pointer {
                if segment >= self.bases.len() {
                    return Err(bad_segment.to_owned());
                }
                let address = match self.bases[segment].checked_add(offset as u64) {
                    Some(address) => address,
                    None => return Err(overflow.to_owned()),
                };
                let ghost before = self.bindings@;
                self.bindings.push(Binding64 { address, symbol: recs[i].3.clone() });
                assert(self.bindings@.map_values(|b: Binding64| (b.address, b.symbol@)) =~= before.map_values(
                    |b: Binding64| (b.address, b.symbol@),
                ).push((address, all[i as int].3)));
            }
            i = i + 1;
        }
        Ok(())
    }

    fn load_dyld_info(&mut self, image: &[u8], d: &DyldInfoRanges, slide: u64) -> (r: Result<(), String>)
        requires
            old(self).memory.wf(),
        ensures
            final(self).memory.wf(),
            step_matches(r, final(self).progress(), dyld_info_spec(image@, old(self).progress(), *d, slide)),
    {
        let rebase_bytes = match command_bytes(image, d.rebase_off, d.rebase_size) {
            Ok(b) => b,
            Err(e) => return Err(e),
        };
        if !rebase_stream_safe_exec(rebase_bytes, POINTER_SIZE) {
            return Err(REBASE_REFUSED.to_owned());
        }
        let rebases = rebase_entries(rebase_bytes, POINTER_SIZE);
        if let Err(e) = self.apply_rebases(&rebases, slide) {
            return Err(e);
        }
        let bind_bytes = match command_bytes(image, d.bind_off, d.bind_size) {
            Ok(b) => b,
            Err(e) => return Err(e),
        };
        if !bind_stream_safe_exec(bind_bytes, POINTER_SIZE, BindKind::Bind) {
            return Err(BIND_REFUSED.to_owned());
        }
        let binds = bind_entries(bind_bytes, POINTER_SIZE);
        if let Err(e) = self.add_bindings(&binds, BIND_BAD_SEGMENT, BIND_ADDRESS_OVERFLOWS) {
            return Err(e);
        }
        let weak_bytes = match command_bytes(image, d.weak_bind_off, d.weak_bind_size) {
            Ok(b) => b,
            Err(e) => return Err(e),
        };
        if !bind_stream_safe_exec(weak_bytes, POINTER_SIZE, BindKind::Weak) {
            return Err(WEAK_BIND_REFUSED.to_owned());
        }
        let weak_binds = weak_bind_entries(weak_bytes, POINTER_SIZE);
        if let Err(e) = self.add_bindings(&weak_binds, WEAK_BIND_BAD_SEGMENT, WEAK_BIND_ADDRESS_OVERFLOWS) {
            return Err(e);
        }
        let lazy_bytes = match command_bytes(image, d.lazy_bind_off, d.lazy_bind_size) {
            Ok(b) => b,
            Err(e) => return Err(e),
        };
        if !bind_stream_safe_exec(lazy_bytes, POINTER_SIZE, BindKind::Lazy) {
            return Err(LAZY_BIND_REFUSED.to_owned());
        }
        let lazy = lazy_bind_entries(lazy_bytes, POINTER_SIZE);
        let lazy_binds = lazy_as_pointer_binds(&lazy);
        self.add_bindings(&lazy_binds, LAZY_BIND_BAD_SEGMENT, LAZY_BIND_ADDRESS_OVERFLOWS)
    }

    fn apply_command(&mut self, image: &[u8], c: &Command64, slide: u64) -> (r: Result<(), String>)
        requires
            old(self).memory.wf(),
        ensures
            final(self).memory.wf(),
            step_matches(r, final(self).progress(), command_spec(image@, old(self).progress(), c@, slide)),
    {
        match c {
            Command64::Segment(seg) => self.load_segment(image, seg, slide),
            Command64::SymTab(t) => {
                self.symtab = Some(*t);
                Ok(())
            },
            Command64::LoadDylib(path) => {
                self.dylibs.push(path.clone());
                assert(self.dylibs.deep_view() =~= old(self).dylibs.deep_view().push(path@));
                Ok(())
            },
            Command64::Encryption(id) => {
                if *id != 0 {
                    Err(ENCRYPTED.to_owned())
                } else {
                    Ok(())
                }
            },
            Command64::EntryPoint(offset) => {
                self.entry_off = Some(*offset);
                Ok(())
            },
            Command64::ThreadPc(pc) => {
                match pc.checked_add(slide) {
                    Some(v) => {
                        self.entry_pc = Some(v);
                        Ok(())
                    },
                    None => Err(ENTRY_OVERFLOWS.to_owned()),
                }
            },
            Command64::DyldInfo(d) => self.load_dyld_info(image, d, slide),
            Command64::Other => Ok(()),
        }
    }
}

/// Lazy bind entries as pointer bind entries.
fn lazy_as_pointer_binds(recs: &Vec<(usize, isize, String)>) -> (r: Vec<(bool, usize, isize, String)>)
    ensures
        r.deep_view() == lazy_as_bind(recs.deep_view()),
{
    let mut out: Vec<(bool, usize, isize, String)> = Vec::new();
    let mut i: usize = 0;
    while i < recs.len()
        invariant
            i <= recs@.len(),
            out.deep_view() == lazy_as_bind(recs.deep_view()).subrange(0, i as int),
        decreases recs@.len() - i,
    {
        let ghost before = out.deep_view();
        out.push((true, recs[i].0, recs[i].1, recs[i].2.clone()));
        assert(out.deep_view() =~= before.push(lazy_as_bind(recs.deep_view())[i as int]));
        assert(lazy_as_bind(recs.deep_view()).subrange(0, i + 1) =~= lazy_as_bind(recs.deep_view()).subrange(0, i as int).push(
            lazy_as_bind(recs.deep_view())[i as int],
        ));
        i = i + 1;
    }
    assert(lazy_as_bind(recs.deep_view()).subrange(0, recs@.len() as int) =~= lazy_as_bind(recs.deep_view()));
    out
}

/// Binds `name` to `value` among the exports `out` (see [`insert_export`]).
fn insert_export_exec(out: &mut Vec<(String, u64)>, name: &String, value: u64)
    requires
        names_unique(old(out).deep_view()),
    ensures
        final(out).deep_view() == insert_export(old(out).deep_view(), name@, value),
        names_unique(final(out).deep_view()),
{
    let ghost ex = out.deep_view();
    let mut j: usize = 0;
    while j < out.len()
        invariant
            j <= out@.len(),
            ex == out.deep_view(),
            ex == old(out).deep_view(),
            names_unique(ex),
            forall|k: int| 0 <= k < j ==> ex[k].0 != name@,
        decreases out@.len() - j,
    {
        if string_is(&out[j].0, name.as_str()) {
            proof {
                assert(ex[j as int].0 == name@);
                let c = choose|k: int| 0 <= k < ex.len() && ex[k].0 == name@;
                assert(c == j) by {
                    if c != j {
                        assert(ex[c].0 != ex[j as int].0);
                    }
                }
                assert(export_index(ex, name@) == Some(j as int));
            }
            let entry = (name.clone(), value);
            out.set(j, entry);
            assert(out.deep_view() =~= ex.update(j as int, (name@, value)));
            assert(ex == old(out).deep_view());
            assert(out.deep_view() == insert_export(ex, name@, value));
            return;
        }
        j = j + 1;
    }
    out.push((name.clone(), value));
    assert(out.deep_view() =~= ex.push((name@, value)));
}

/// The string table size the symbols are read with (see
/// [`readable_strsize`]).
fn readable_strsize_exec(len: usize, stroff: u32, strsize: u32) -> (n: u32)
    ensures
        n == readable_strsize(len as nat, stroff, strsize),
{
    if (stroff as u128) + (strsize as u128) <= (len as u128) + 1 {
        strsize
    } else if stroff as usize <= len {
        (len - stroff as usize + 1) as u32
    } else {
        1
    }
}

/// The exports the symbol table `t` of `image` defines, moved by `slide`.
fn load_exports(image: &[u8], t: &SymtabInfo, slide: u64) -> (r: Result<Vec<(String, u64)>, String>)
    ensures
        match exports_spec(image@, Some(*t), slide) {
            Ok(e) => r is Ok && r->Ok_0.deep_view() == e,
            Err(e) => r is Err && r->Err_0@ == e,
        },
{
    let strsize = readable_strsize_exec(image.len(), t.stroff, t.strsize);
    let read = symbol_entries(image, t.symoff, t.nsyms, t.stroff, strsize);
    let symbols = match read {
        Some(symbols) => symbols,
        None => return Err(BAD_SYMBOL_TABLE_OFFSET.to_owned()),
    };
    let ghost syms = symbols.deep_view();
    let mut out: Vec<(String, u64)> = Vec::new();
    assert(out.deep_view() =~= exports_of(syms, slide, 0));
    let mut i: usize = 0;
    while i < symbols.len()
        invariant
            i <= symbols@.len(),
            syms == symbols.deep_view(),
            out.deep_view() == exports_of(syms, slide, i as int),
            names_unique(out.deep_view()),
        decreases symbols@.len() - i,
    {
        if symbols[i].0 {
            if let Some(name) = &symbols[i].1 {
                insert_export_exec(&mut out, name, (symbols[i].2 as u64).wrapping_add(slide));
            }
        }
        i = i + 1;
    }
    Ok(out)
}

impl MachO64 {
    /// Loads the image `image` whose load commands are `commands` at
    /// `slide` (see [`load_spec`]).
    pub fn load_commands(image: &[u8], commands: &[Command64], name: String, slide: u64) -> (r: Result<MachO64, String>)
        ensures
            match load_spec(image@, commands_view(commands@), slide) {
                Ok(loaded) => r is Ok && r->Ok_0.is_loaded(name@, loaded),
                Err(e) => r is Err && r->Err_0@ == e,
            },
    {
        let mut loader = Loader::new();
        let mut i: usize = 0;
        while i < commands.len()
            invariant
                loader.memory.wf(),
                i <= commands@.len(),
                commands_spec(image@, commands_view(commands@), slide, 0, initial_progress()) == commands_spec(
                    image@,
                    commands_view(commands@),
                    slide,
                    i as int,
                    loader.progress(),
                ),
            decreases commands@.len() - i,
        {
            assert(commands_view(commands@)[i as int] == commands@[i as int]@);
            if let Err(e) = loader.apply_command(image, &commands[i], slide) {
                return Err(e);
            }
            i = i + 1;
        }
        let entry = match loader.entry_off {
            None => loader.entry_pc,
            Some(offset) => match loader.text_base {
                None => return Err(NO_TEXT_SEGMENT.to_owned()),
                Some(text) => match text.checked_add(offset) {
                    Some(pc) => Some(pc),
                    None => return Err(ENTRY_OVERFLOWS.to_owned()),
                },
            },
        };
        let exports = match loader.symtab {
            None => {
                let v: Vec<(String, u64)> = Vec::new();
                assert(v.deep_view() =~= Seq::<(Seq<char>, u64)>::empty());
                v
            },
            Some(t) => match load_exports(image, &t, slide) {
                Ok(v) => v,
                Err(e) => return Err(e),
            },
        };
        let text_base = match loader.text_base {
            Some(t) => t,
            None => 0,
        };
        Ok(MachO64 {
            architecture: Architecture::Arm64,
            name,
            dynamic_libraries: loader.dylibs,
            exported_symbols: exports,
            bindings: loader.bindings,
            entry_point_pc: entry,
            text_base,
            last_segment_end: loader.last_end,
            memory: loader.memory,
        })
    }
}

/// The fat slice loading takes: the first for ARM64.
pub open spec fn first_arm64(slices: Seq<(i32, u64, u64)>) -> Option<int> {
    if exists|i: int| 0 <= i < slices.len() && slices[i].0 == CPU_TYPE_ARM64 {
        Some(choose|i: int| 0 <= i < slices.len() && slices[i].0 == CPU_TYPE_ARM64 && forall|k: int| 0 <= k < i ==> slices[k].0 != CPU_TYPE_ARM64)
    } else {
        None
    }
}

/// Some ARM64 slice at or after `j`, none before it: a first one exists.
proof fn lemma_first_arm64_exists(slices: Seq<(i32, u64, u64)>, w: int, j: int)
    requires
        0 <= j <= w < slices.len(),
        slices[w].0 == CPU_TYPE_ARM64,
        forall|k: int| 0 <= k < j ==> slices[k].0 != CPU_TYPE_ARM64,
    ensures
        exists|i: int| 0 <= i < slices.len() && slices[i].0 == CPU_TYPE_ARM64 && forall|k: int| 0 <= k < i ==> slices[k].0 != CPU_TYPE_ARM64,
    decreases w - j,
{
    if slices[j].0 == CPU_TYPE_ARM64 {
        assert(0 <= j < slices.len() && slices[j].0 == CPU_TYPE_ARM64 && forall|k: int| 0 <= k < j ==> slices[k].0 != CPU_TYPE_ARM64);
    } else {
        lemma_first_arm64_exists(slices, w, j + 1);
    }
}

/// The slice loading takes is an ARM64 slice of the list.
proof fn lemma_first_arm64(slices: Seq<(i32, u64, u64)>)
    requires
        first_arm64(slices) is Some,
    ensures
        0 <= first_arm64(slices)->Some_0 < slices.len(),
        slices[first_arm64(slices)->Some_0].0 == CPU_TYPE_ARM64,
{
    let w = choose|i: int| 0 <= i < slices.len() && slices[i].0 == CPU_TYPE_ARM64;
    lemma_first_arm64_exists(slices, w, 0);
}

/// The byte range a fat slice spans in a file of `len` bytes.
pub open spec fn slice_range_spec(len: nat, slice: (i32, u64, u64)) -> Result<(int, int), Seq<char>> {
    if slice.1 > usize::MAX {
        Err(FAT_SLICE_OFFSET_TOO_LARGE@)
    } else if slice.2 > usize::MAX {
        Err(FAT_SLICE_SIZE_TOO_LARGE@)
    } else if slice.1 + slice.2 > usize::MAX {
        Err(FAT_SLICE_OVERFLOWS@)
    } else if slice.1 + slice.2 > len {
        Err(FAT_SLICE_PAST_END@)
    } else {
        Ok((slice.1 as int, slice.1 + slice.2))
    }
}

/// A fat slice's CPU type, offset and size.
pub open spec fn fat_slice_triple(s: FatSliceView) -> (i32, u64, u64) {
    (s.cputype, s.offset, s.size)
}

/// The ARM64 slice of a fat file of `len` bytes: its byte range and its
/// parsed file.
pub fn select_arm64_slice(len: usize, slices: Vec<FatSlice>) -> (r: Result<(usize, usize, Option<MachFile64>), String>)
    ensures
        ({
            let v = slices@.map_values(|s: FatSlice| fat_slice_triple(s@));
            match first_arm64(v) {
                None => r is Err && r->Err_0@ == NO_ARM64_SLICE@,
                Some(i) => match slice_range_spec(len as nat, v[i]) {
                    Ok((start, end)) => r is Ok && r->Ok_0.0 == start && r->Ok_0.1 == end && opt_mach_view(r->Ok_0.2) == slices@[i]@.file,
                    Err(e) => r is Err && r->Err_0@ == e,
                },
            }
        }),
{
    let ghost v = slices@.map_values(|s: FatSlice| fat_slice_triple(s@));
    let mut rest = slices;
    let ghost all = rest@;
    let mut i: usize = 0;
    let mut found: Option<FatSlice> = None;
    while i < rest.len()
        invariant
            i <= rest@.len(),
            rest@ == all,
            v == all.map_values(|s: FatSlice| fat_slice_triple(s@)),
            forall|k: int| 0 <= k < i ==> v[k].0 != CPU_TYPE_ARM64,
        ensures
            i <= rest@.len(),
            rest@ == all,
            forall|k: int| 0 <= k < i ==> v[k].0 != CPU_TYPE_ARM64,
            i < rest@.len() ==> v[i as int].0 == CPU_TYPE_ARM64,
        decreases rest@.len() - i,
    {
        if rest[i].cputype == CPU_TYPE_ARM64 {
            break;
        }
        i = i + 1;
    }
    if i == rest.len() {
        return Err(NO_ARM64_SLICE.to_owned());
    }
    proof {
        let c = choose|j: int| 0 <= j < v.len() && v[j].0 == CPU_TYPE_ARM64 && forall|k: int| 0 <= k < j ==> v[k].0 != CPU_TYPE_ARM64;
        assert(v[i as int].0 == CPU_TYPE_ARM64);
        assert(c == i) by {
            if c < i {
                assert(v[c].0 != CPU_TYPE_ARM64);
            } else if c > i {
                assert(v[i as int].0 != CPU_TYPE_ARM64);
            }
        }
    }
    let slice = rest.remove(i);
    if slice.offset > usize::MAX as u64 {
        return Err(FAT_SLICE_OFFSET_TOO_LARGE.to_owned());
    }
    if slice.size > usize::MAX as u64 {
        return Err(FAT_SLICE_SIZE_TOO_LARGE.to_owned());
    }
    let start = slice.offset as usize;
    let end = match start.checked_add(slice.size as usize) {
        Some(end) => end,
        None => return Err(FAT_SLICE_OVERFLOWS.to_owned()),
    };
    if end > len {
        return Err(FAT_SLICE_PAST_END.to_owned());
    }
    Ok((start, end, slice.file))
}

impl MachO64 {
    /// Loads the ARM64 executable in `bytes`, a Mach-O file or a fat file
    /// with an ARM64 slice, at `slide`: `bytes` is parsed by `mach_object`
    /// (see [`parsed_object`]) and the parsed file loaded by
    /// [`MachO64::load_object`].
    pub fn load_from_bytes(bytes: &[u8], name: String, slide: u64) -> (r: Result<MachO64, String>)
        ensures
            load_matches(r, name@, bytes_spec(bytes@, slide)),
    {
        if usize::BITS != 64 {
            proof {
                reveal(load_matches);
            }
            return Err(NEEDS_64BIT_HOST.to_owned());
        }
        if is_archive_exec(bytes) {
            proof {
                reveal(load_matches);
            }
            return Err(NOT_EXECUTABLE.to_owned());
        }
        let little = native_u16_of_one_zero() == 1;
        if !object_safe_exec(bytes, little) {
            proof {
                reveal(load_matches);
            }
            return Err(LOAD_COMMANDS_REFUSED.to_owned());
        }
        match parse_object_file(bytes) {
            Ok(object) => MachO64::load_object(bytes, object, name, slide),
            Err(e) => {
                let r = joined(PARSE_FAILED, e.as_str(), "");
                proof {
                    reveal(load_matches);
                    reveal_strlit("");
                    assert(r@ =~= PARSE_FAILED@ + e@);
                }
                Err(r)
            },
        }
    }

    /// Loads the parsed object file `object` whose bytes are `bytes`: a thin
    /// file as it is, a fat file by its first ARM64 slice (see
    /// [`object_spec`]).
    pub fn load_object(bytes: &[u8], object: ObjectFile, name: String, slide: u64) -> (r: Result<MachO64, String>)
        ensures
            load_matches(r, name@, object_spec(bytes@, object@, slide)),
    {
        match object {
            ObjectFile::Mach(m) => MachO64::load_image(bytes, m.header, m.commands.as_slice(), name, slide),
            ObjectFile::Other => {
                proof {
                    reveal(load_matches);
                }
                Err(NOT_EXECUTABLE.to_owned())
            },
            ObjectFile::Fat(slices) => MachO64::load_fat(bytes, slices, name, slide),
        }
    }

    /// Loads the first ARM64 slice of the fat file whose bytes are `bytes`
    /// and whose slices are `slices` (see [`fat_spec`]).
    #[verifier::rlimit(80)]
    fn load_fat(bytes: &[u8], slices: Vec<FatSlice>, name: String, slide: u64) -> (r: Result<MachO64, String>)
        ensures
            load_matches(r, name@, fat_spec(bytes@, slices@.map_values(|s: FatSlice| s@), slide)),
    {
        let ghost views = slices@.map_values(|s: FatSlice| s@);
        let ghost all = slices@;
        proof {
            assert(all.map_values(|s: FatSlice| fat_slice_triple(s@)) =~= views.map_values(|s: FatSliceView| fat_slice_triple(s)));
        }
        let selected = select_arm64_slice(bytes.len(), slices);
        let ghost v = all.map_values(|s: FatSlice| fat_slice_triple(s@));
        proof {
            if first_arm64(v) is Some {
                lemma_first_arm64(v);
                let i = first_arm64(v)->Some_0;
                assert(views[i] == all[i]@);
                assert(v[i] == fat_slice_triple(views[i]));
            }
        }
        match selected {
            Err(e) => {
                proof {
                    reveal(load_matches);
                }
                Err(e)
            },
            Ok((start, end, file)) => match file {
                None => {
                    proof {
                        reveal(load_matches);
                    }
                    Err(NOT_EXECUTABLE.to_owned())
                },
                Some(m) => {
                    let image = vstd::slice::slice_subrange(bytes, start, end);
                    let r = MachO64::load_image(image, m.header, m.commands.as_slice(), name, slide);
                    assert(fat_spec(bytes@, views, slide) == image_spec(image@, m@, slide));
                    r
                },
            },
        }
    }

    /// Loads a parsed thin Mach-O image: it must be a little-endian 64-bit
    /// ARM image, whose load commands are then loaded (see
    /// [`MachO64::load_commands`]).
    pub fn load_image(image: &[u8], header: MachHeaderInfo, commands: &[Command64], name: String, slide: u64) -> (r: Result<
        MachO64,
        String,
    >)
        ensures
            load_matches(
                r,
                name@,
                image_spec(image@, MachView { magic: header.magic, cputype: header.cputype, commands: commands_view(commands@) }, slide),
            ),
    {
        proof {
            reveal(load_matches);
            reveal(image_spec);
        }
        if header.cputype != CPU_TYPE_ARM64 || !is_64bit(header.cputype) {
            return Err(NOT_ARM64.to_owned());
        }
        if is_bigend(header.magic) {
            return Err(BIG_ENDIAN.to_owned());
        }
        MachO64::load_commands(image, commands, name, slide)
    }

    /// Loads the executable at `path` whose contents are `contents` (`None`
    /// where it could not be read), named by the path's last component.
    pub fn load_from_file(path: &str, contents: Option<&[u8]>, slide: u64) -> (r: Result<MachO64, String>)
        ensures
            file_name_spec(path@) is None ==> r is Err && r->Err_0@ == NO_FILE_NAME@,
            file_name_spec(path@) is Some && contents is None ==> r is Err && r->Err_0@ == UNREADABLE@,
            match (file_name_spec(path@), contents) {
                (Some(n), Some(c)) => load_matches(r, n, bytes_spec(c@, slide)),
                _ => true,
            },
    {
        proof {
            reveal(load_matches);
        }
        let name = match file_name(path) {
            Some(name) => name,
            None => return Err(NO_FILE_NAME.to_owned()),
        };
        match contents {
            None => Err(UNREADABLE.to_owned()),
            Some(bytes) => MachO64::load_from_bytes(bytes, name, slide),
        }
    }
}

/// Where the path's trailing slashes begin.
pub open spec fn trailing_slashes_start(p: Seq<char>, j: int) -> int
    decreases j,
{
    if j <= 0 || p[j - 1] != '/' {
        j
    } else {
        trailing_slashes_start(p, j - 1)
    }
}

/// Where the last component of `p[..j]` begins.
pub open spec fn component_start(p: Seq<char>, j: int) -> int
    decreases j,
{
    if j <= 0 || p[j - 1] == '/' {
        j
    } else {
        component_start(p, j - 1)
    }
}

/// The last component of a path, trailing slashes left aside; none where
/// it is empty or `..`.
pub open spec fn file_name_spec(p: Seq<char>) -> Option<Seq<char>> {
    let end = trailing_slashes_start(p, p.len() as int);
    let start = component_start(p, end);
    let c = p.subrange(start, end);
    if c.len() == 0 || c == ".."@ {
        None
    } else {
        Some(c)
    }
}

proof fn lemma_trailing_slashes_bounds(p: Seq<char>, j: int)
    requires
        0 <= j <= p.len(),
    ensures
        0 <= trailing_slashes_start(p, j) <= j,
    decreases j,
{
    if j > 0 && p[j - 1] == '/' {
        lemma_trailing_slashes_bounds(p, j - 1);
    }
}

proof fn lemma_component_bounds(p: Seq<char>, j: int)
    requires
        0 <= j <= p.len(),
    ensures
        0 <= component_start(p, j) <= j,
    decreases j,
{
    if j > 0 && p[j - 1] != '/' {
        lemma_component_bounds(p, j - 1);
    }
}

/// The last component of `path` (see [`file_name_spec`]).
pub fn file_name(path: &str) -> (r: Option<String>)
    ensures
        match file_name_spec(path@) {
            Some(n) => r is Some && r->Some_0@ == n,
            None => r is None,
        },
{
    let p = str_chars(path);
    let mut end = p.len();
    while end > 0 && p[end - 1] == '/'
        invariant
            end <= p@.len(),
            trailing_slashes_start(p@, end as int) == trailing_slashes_start(p@, p@.len() as int),
        decreases end,
    {
        end = end - 1;
    }
    let mut start = end;
    while start > 0 && p[start - 1] != '/'
        invariant
            start <= end <= p@.len(),
            end == trailing_slashes_start(p@, p@.len() as int),
            component_start(p@, start as int) == component_start(p@, end as int),
        decreases start,
    {
        start = start - 1;
    }
    let mut component: Vec<char> = Vec::new();
    let mut k = start;
    while k < end
        invariant
            start <= k <= end <= p@.len(),
            component@ == p@.subrange(start as int, k as int),
        decreases end - k,
    {
        component.push(p[k]);
        k = k + 1;
    }
    let dots = str_chars("..");
    if component.len() == 0 || chars_eq(component.as_slice(), dots.as_slice()) {
        return None;
    }
    Some(string_from_chars(component.as_slice()))
}

} // verus!
