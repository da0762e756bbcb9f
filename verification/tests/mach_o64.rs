use touchhle::mach_o64::{
    file_name, Architecture, Command64, DyldInfoRanges, MachHeaderInfo, MachO64, Segment64, SymtabInfo, BIG_ENDIAN,
    DYLD_PAST_END, FatSlice, MachFile64, ObjectFile, FAT_SLICE_PAST_END, NOT_EXECUTABLE, NO_ARM64_SLICE,
    ENCRYPTED, NOT_ARM64, NO_FILE_NAME, NO_TEXT_SEGMENT, REBASE_BAD_SEGMENT, SEGMENT_ADDRESS_OVERFLOWS,
    UNREADABLE, LOAD_COMMANDS_REFUSED, REBASE_REFUSED, BIND_REFUSED,
};

fn put_u32(out: &mut Vec<u8>, v: u32) {
    out.extend_from_slice(&v.to_le_bytes());
}

fn put_u64(out: &mut Vec<u8>, v: u64) {
    out.extend_from_slice(&v.to_le_bytes());
}

fn segment_command(out: &mut Vec<u8>, name: &str, vmaddr: u64, vmsize: u64, fileoff: u64, filesize: u64) {
    put_u32(out, 0x19);
    put_u32(out, 72);
    let mut segname = [0u8; 16];
    segname[..name.len()].copy_from_slice(name.as_bytes());
    out.extend_from_slice(&segname);
    put_u64(out, vmaddr);
    put_u64(out, vmsize);
    put_u64(out, fileoff);
    put_u64(out, filesize);
    put_u32(out, 7);
    put_u32(out, 5);
    put_u32(out, 0);
    put_u32(out, 0);
}

const DYLIB: &str = "/usr/lib/libSystem.B.dylib";

/// A small ARM64 executable: `__PAGEZERO`, `__TEXT` at 0x4000 (holding the
/// first 0x400 bytes of the file), `__DATA` at 0x5000 (holding a pointer to
/// 0x4010 at offset 8), `LC_MAIN` at text offset 0x100 (or, given a
/// program counter, an ARM64 `LC_UNIXTHREAD` state), one library, a
/// rebase of the `__DATA` pointer, binds of `_malloc`, `_weak` (weak) and
/// `_free` (lazy) in `__DATA`, and one defined symbol `_main` at 0x4100
/// beside an undefined `_printf`.
fn sample_image(cputype: u32, magic: u32, encryption: Option<u32>, thread_pc: Option<u64>) -> Vec<u8> {
    let mut cmds = Vec::new();
    let mut ncmds = 0;
    segment_command(&mut cmds, "__PAGEZERO", 0, 0x1000, 0, 0);
    segment_command(&mut cmds, "__TEXT", 0x4000, 0x1000, 0, 0x400);
    segment_command(&mut cmds, "__DATA", 0x5000, 0x1000, 0x400, 0x40);
    ncmds += 3;
    if let Some(pc) = thread_pc {
        put_u32(&mut cmds, 0x5);
        put_u32(&mut cmds, 288);
        put_u32(&mut cmds, 6);
        put_u32(&mut cmds, 68);
        for _ in 0..32 {
            put_u64(&mut cmds, 0);
        }
        put_u64(&mut cmds, pc);
        put_u32(&mut cmds, 0);
        put_u32(&mut cmds, 0);
    } else {
        put_u32(&mut cmds, 0x8000_0028);
        put_u32(&mut cmds, 24);
        put_u64(&mut cmds, 0x100);
        put_u64(&mut cmds, 0);
    }
    ncmds += 1;
    put_u32(&mut cmds, 0xc);
    put_u32(&mut cmds, 56);
    put_u32(&mut cmds, 24);
    put_u32(&mut cmds, 0);
    put_u32(&mut cmds, 0x10000);
    put_u32(&mut cmds, 0x10000);
    cmds.extend_from_slice(DYLIB.as_bytes());
    cmds.resize(cmds.len() + 56 - 24 - DYLIB.len(), 0);
    ncmds += 1;
    put_u32(&mut cmds, 0x8000_0022);
    put_u32(&mut cmds, 48);
    for v in [0x440u32, 5, 0x450, 14, 0x460, 12, 0x470, 12, 0, 0] {
        put_u32(&mut cmds, v);
    }
    ncmds += 1;
    put_u32(&mut cmds, 0x2);
    put_u32(&mut cmds, 24);
    for v in [0x480u32, 2, 0x4a0, 16] {
        put_u32(&mut cmds, v);
    }
    ncmds += 1;
    if let Some(id) = encryption {
        put_u32(&mut cmds, 0x2c);
        put_u32(&mut cmds, 24);
        for v in [0u32, 0, id, 0] {
            put_u32(&mut cmds, v);
        }
        ncmds += 1;
    }
    let mut image = Vec::new();
    put_u32(&mut image, magic);
    put_u32(&mut image, cputype);
    put_u32(&mut image, 0);
    put_u32(&mut image, 2);
    put_u32(&mut image, ncmds);
    put_u32(&mut image, cmds.len() as u32);
    put_u32(&mut image, 0);
    put_u32(&mut image, 0);
    image.extend_from_slice(&cmds);
    assert!(image.len() <= 0x400);
    image.resize(0x400, 0);
    // __DATA: a pointer into __TEXT at offset 8.
    let mut data = vec![0u8; 0x40];
    data[8..16].copy_from_slice(&0x4010u64.to_le_bytes());
    image.extend_from_slice(&data);
    // Rebase stream at 0x440: pointer type, segment 2 offset 8, rebase once.
    image.extend_from_slice(&[0x11, 0x22, 0x08, 0x51, 0x00]);
    image.resize(0x450, 0);
    // Bind stream at 0x450: dylib 1, `_malloc`, pointer, segment 2 offset 0x10, bind.
    image.extend_from_slice(&[0x11, 0x40, b'_', b'm', b'a', b'l', b'l', b'o', b'c', 0, 0x51, 0x72, 0x10, 0x90]);
    image.resize(0x460, 0);
    // Weak bind stream at 0x460: `_weak`, pointer, segment 2 offset 0x20, bind.
    image.extend_from_slice(&[0x40, b'_', b'w', b'e', b'a', b'k', 0, 0x51, 0x72, 0x20, 0x90, 0x00]);
    image.resize(0x470, 0);
    // Lazy bind stream at 0x470: segment 2 offset 0x18, dylib 1, `_free`, bind.
    image.extend_from_slice(&[0x72, 0x18, 0x11, 0x40, b'_', b'f', b'r', b'e', b'e', 0, 0x90, 0x00]);
    image.resize(0x480, 0);
    // Symbol table at 0x480: `_main`, external, in section 1, at 0x4100;
    // `_printf`, external and undefined.
    put_u32(&mut image, 1);
    image.push(0x0f);
    image.push(1);
    image.extend_from_slice(&0u16.to_le_bytes());
    put_u64(&mut image, 0x4100);
    put_u32(&mut image, 7);
    image.push(0x01);
    image.push(0);
    image.extend_from_slice(&0u16.to_le_bytes());
    put_u64(&mut image, 0);
    // String table at 0x4a0.
    image.extend_from_slice(b"\0_main\0_printf\0\0");
    image
}

fn arm64_image() -> Vec<u8> {
    sample_image(0x0100_000c, 0xfeed_facf, None, None)
}

#[test]
fn loads_segments_entry_point_and_imports() {
    let image = arm64_image();
    let m = MachO64::load_from_bytes(&image, "Sample".to_string(), 0).unwrap();
    assert!(m.architecture == Architecture::Arm64);
    assert_eq!(m.name, "Sample");
    assert_eq!(m.text_base, 0x4000);
    assert_eq!(m.last_segment_end, 0x6000);
    assert_eq!(m.entry_point_pc, Some(0x4100));
    assert_eq!(m.dynamic_libraries, vec![DYLIB.to_string()]);
    let bindings: Vec<(u64, &str)> = m.bindings.iter().map(|b| (b.address, b.symbol.as_str())).collect();
    assert_eq!(bindings, vec![(0x5010, "_malloc"), (0x5020, "_weak"), (0x5018, "_free")]);
    assert_eq!(m.exported_symbols, vec![("_main".to_string(), 0x4100)]);
    assert_eq!(m.memory.read_u32(0x4000), Ok(0xfeed_facf));
    assert_eq!(m.memory.read_u64(0x5008), Ok(0x4010));
    assert_eq!(m.memory.read_u64(0x5800), Ok(0));
    assert!(m.memory.read_u8(0x100).is_err());
}

#[test]
fn slide_moves_segments_pointers_and_symbols() {
    let image = arm64_image();
    let m = MachO64::load_from_bytes(&image, "Sample".to_string(), 0x10000).unwrap();
    assert_eq!(m.text_base, 0x14000);
    assert_eq!(m.entry_point_pc, Some(0x14100));
    assert_eq!(m.last_segment_end, 0x16000);
    assert_eq!(m.memory.read_u64(0x15008), Ok(0x14010));
    assert_eq!(m.bindings[0].address, 0x15010);
    assert_eq!(m.bindings[2].address, 0x15018);
    assert_eq!(m.exported_symbols, vec![("_main".to_string(), 0x14100)]);
}

#[test]
fn thread_state_gives_the_entry_point() {
    let image = sample_image(0x0100_000c, 0xfeed_facf, None, Some(0x4200));
    let m = MachO64::load_from_bytes(&image, "t".to_string(), 0x1000).unwrap();
    assert_eq!(m.entry_point_pc, Some(0x5200));
    assert_eq!(m.text_base, 0x5000);
}

#[test]
fn rejects_other_architectures_and_byte_orders() {
    let x86 = sample_image(0x0100_0007, 0xfeed_facf, None, None);
    assert_eq!(MachO64::load_from_bytes(&x86, "x".to_string(), 0).unwrap_err(), NOT_ARM64);
    let junk = vec![0u8; 16];
    let err = MachO64::load_from_bytes(&junk, "x".to_string(), 0).unwrap_err();
    assert!(err.starts_with("could not parse ARM64 Mach-O: "));
}

#[test]
fn parsed_images_must_be_little_endian_arm64() {
    let commands = vec![Command64::ThreadPc(0x10)];
    let big = MachHeaderInfo { magic: 0xcffa_edfe, cputype: 0x0100_000c };
    assert_eq!(MachO64::load_image(&[], big, &commands, "x".to_string(), 0).unwrap_err(), BIG_ENDIAN);
    let arm32 = MachHeaderInfo { magic: 0xfeed_face, cputype: 12 };
    assert_eq!(MachO64::load_image(&[], arm32, &commands, "x".to_string(), 0).unwrap_err(), NOT_ARM64);
    let good = MachHeaderInfo { magic: 0xfeed_facf, cputype: 0x0100_000c };
    let m = MachO64::load_image(&[], good, &commands, "x".to_string(), 5).unwrap();
    assert_eq!(m.entry_point_pc, Some(0x15));
    assert_eq!(m.text_base, 0);
}

#[test]
fn encrypted_executables_are_refused() {
    let image = sample_image(0x0100_000c, 0xfeed_facf, Some(1), None);
    assert_eq!(MachO64::load_from_bytes(&image, "x".to_string(), 0).unwrap_err(), ENCRYPTED);
    let clear = sample_image(0x0100_000c, 0xfeed_facf, Some(0), None);
    assert!(MachO64::load_from_bytes(&clear, "x".to_string(), 0).is_ok());
}

#[test]
fn fat_files_use_their_arm64_slice() {
    let slice = arm64_image();
    let mut fat = Vec::new();
    fat.extend_from_slice(&0xcafe_babeu32.to_be_bytes());
    fat.extend_from_slice(&1u32.to_be_bytes());
    fat.extend_from_slice(&0x0100_000cu32.to_be_bytes());
    fat.extend_from_slice(&0u32.to_be_bytes());
    fat.extend_from_slice(&0x1000u32.to_be_bytes());
    fat.extend_from_slice(&(slice.len() as u32).to_be_bytes());
    fat.extend_from_slice(&12u32.to_be_bytes());
    fat.resize(0x1000, 0);
    fat.extend_from_slice(&slice);
    let m = MachO64::load_from_bytes(&fat, "Fat".to_string(), 0).unwrap();
    assert_eq!(m.entry_point_pc, Some(0x4100));
    assert_eq!(m.memory.read_u64(0x5008), Ok(0x4010));
}

fn segment(name: &str, vmaddr: usize, vmsize: usize, fileoff: usize, filesize: usize) -> Command64 {
    Command64::Segment(Segment64 { segname: name.to_string(), vmaddr, vmsize, fileoff, filesize })
}

#[test]
fn load_commands_follow_the_command_order() {
    let image = vec![7u8; 0x20];
    let commands = vec![
        segment("__TEXT", 0x1000, 0x100, 0, 0x10),
        Command64::LoadDylib("libA".to_string()),
        Command64::ThreadPc(0x1004),
        Command64::LoadDylib("libB".to_string()),
        Command64::Other,
    ];
    let m = MachO64::load_commands(&image, &commands, "t".to_string(), 0).unwrap();
    assert_eq!(m.dynamic_libraries, vec!["libA".to_string(), "libB".to_string()]);
    assert_eq!(m.entry_point_pc, Some(0x1004));
    assert_eq!(m.memory.read_u8(0x100f), Ok(7));
    assert_eq!(m.memory.read_u8(0x1010), Ok(0));
    assert!(m.exported_symbols.is_empty());
}

#[test]
fn load_commands_report_each_failure() {
    let image = vec![0u8; 0x20];
    let no_text = vec![Command64::EntryPoint(4)];
    assert_eq!(MachO64::load_commands(&image, &no_text, "t".to_string(), 0).unwrap_err(), NO_TEXT_SEGMENT);
    let past_end = vec![segment("__DATA", 0x1000, 0x100, 0x10, 0x20)];
    assert_eq!(
        MachO64::load_commands(&image, &past_end, "t".to_string(), 0).unwrap_err(),
        "segment __DATA extends past the Mach-O file"
    );
    let wraps = vec![segment("__TEXT", usize::MAX - 1, 0x10, 0, 0)];
    assert_eq!(MachO64::load_commands(&image, &wraps, "t".to_string(), 2).unwrap_err(), SEGMENT_ADDRESS_OVERFLOWS);
    let ranges = DyldInfoRanges {
        rebase_off: 0x18,
        rebase_size: 0x10,
        bind_off: 0,
        bind_size: 0,
        weak_bind_off: 0,
        weak_bind_size: 0,
        lazy_bind_off: 0,
        lazy_bind_size: 0,
    };
    let dyld = vec![Command64::DyldInfo(ranges)];
    assert_eq!(MachO64::load_commands(&image, &dyld, "t".to_string(), 0).unwrap_err(), DYLD_PAST_END);
    let mut rebase = vec![0u8; 0x20];
    rebase[..4].copy_from_slice(&[0x11, 0x25, 0x00, 0x51]);
    let bad = DyldInfoRanges { rebase_off: 0, rebase_size: 4, ..ranges };
    let commands = vec![Command64::DyldInfo(bad)];
    assert_eq!(MachO64::load_commands(&rebase, &commands, "t".to_string(), 0).unwrap_err(), REBASE_BAD_SEGMENT);
}

#[test]
fn string_table_past_the_end_reads_up_to_the_end() {
    let image = vec![0u8; 0x20];
    let symtab = vec![Command64::SymTab(SymtabInfo { symoff: 0, nsyms: 0, stroff: 0x10, strsize: 0x20 })];
    let m = MachO64::load_commands(&image, &symtab, "t".to_string(), 0).unwrap();
    assert!(m.exported_symbols.is_empty());
    // One defined symbol whose name would start past the image's end.
    let mut image = vec![0u8; 0x20];
    image[0..4].copy_from_slice(&0x10u32.to_le_bytes());
    image[4] = 0x0f;
    image[5] = 1;
    image[8..16].copy_from_slice(&5u64.to_le_bytes());
    let symtab = vec![Command64::SymTab(SymtabInfo { symoff: 0, nsyms: 1, stroff: 0x18, strsize: 0x40 })];
    let m = MachO64::load_commands(&image, &symtab, "t".to_string(), 0).unwrap();
    assert!(m.exported_symbols.is_empty());
}

#[test]
fn a_later_symbol_of_the_same_name_replaces_the_earlier() {
    let mut image = arm64_image();
    image[0x490..0x494].copy_from_slice(&1u32.to_le_bytes());
    image[0x494] = 0x0f;
    image[0x495] = 1;
    image[0x498..0x4a0].copy_from_slice(&0x4200u64.to_le_bytes());
    let m = MachO64::load_from_bytes(&image, "t".to_string(), 0).unwrap();
    assert_eq!(m.exported_symbols, vec![("_main".to_string(), 0x4200)]);
}

#[test]
fn file_names_are_the_last_path_component() {
    assert_eq!(file_name("/Apps/Game.app/Game"), Some("Game".to_string()));
    assert_eq!(file_name("Game"), Some("Game".to_string()));
    assert_eq!(file_name("/Apps/Game.app/"), Some("Game.app".to_string()));
    assert_eq!(file_name("/"), None);
    assert_eq!(file_name(""), None);
    assert_eq!(file_name("/Apps/.."), None);
}

#[test]
fn load_from_file_names_the_image_after_its_path() {
    let image = arm64_image();
    let m = MachO64::load_from_file("/Apps/Sample.app/Sample", Some(&image), 0).unwrap();
    assert_eq!(m.name, "Sample");
    assert_eq!(MachO64::load_from_file("/", Some(&image), 0).unwrap_err(), NO_FILE_NAME);
    assert_eq!(MachO64::load_from_file("/Apps/Sample", None, 0).unwrap_err(), UNREADABLE);
}

#[test]
fn load_object_checks_the_kind_of_file_and_the_fat_slice() {
    let bytes = vec![0u8; 0x40];
    let other = MachO64::load_object(&bytes, ObjectFile::Other, "t".to_string(), 0);
    assert_eq!(other.unwrap_err(), NOT_EXECUTABLE);
    let arm32 = FatSlice { cputype: 12, offset: 0, size: 0x10, file: None };
    let no_arm64 = MachO64::load_object(&bytes, ObjectFile::Fat(vec![arm32]), "t".to_string(), 0);
    assert_eq!(no_arm64.unwrap_err(), NO_ARM64_SLICE);
    let past = FatSlice { cputype: 0x0100_000c, offset: 0x30, size: 0x20, file: None };
    let past_end = MachO64::load_object(&bytes, ObjectFile::Fat(vec![past]), "t".to_string(), 0);
    assert_eq!(past_end.unwrap_err(), FAT_SLICE_PAST_END);
    let archive = FatSlice { cputype: 0x0100_000c, offset: 0, size: 0x20, file: None };
    let not_mach = MachO64::load_object(&bytes, ObjectFile::Fat(vec![archive]), "t".to_string(), 0);
    assert_eq!(not_mach.unwrap_err(), NOT_EXECUTABLE);
    let header = MachHeaderInfo { magic: 0xfeed_facf, cputype: 0x0100_000c };
    let thin = MachFile64 { header, commands: vec![Command64::ThreadPc(0x10)] };
    let m = MachO64::load_object(&bytes, ObjectFile::Mach(thin), "t".to_string(), 4).unwrap();
    assert_eq!(m.entry_point_pc, Some(0x14));
}

#[test]
fn a_dylib_name_offset_below_its_header_is_refused_before_parsing() {
    let mut image = arm64_image();
    assert_eq!(u32::from_le_bytes(image[0x110..0x114].try_into().unwrap()), 0xc);
    image[0x118..0x11c].copy_from_slice(&8u32.to_le_bytes());
    let err = MachO64::load_from_bytes(&image, "t".to_string(), 0).unwrap_err();
    assert_eq!(err, LOAD_COMMANDS_REFUSED);
}

#[test]
fn archives_are_not_executables() {
    let mut archive = b"!<arch>\n".to_vec();
    archive.extend_from_slice(&[b' '; 60]);
    let err = MachO64::load_from_bytes(&archive, "t".to_string(), 0).unwrap_err();
    assert_eq!(err, NOT_EXECUTABLE);
}

#[test]
fn opcode_streams_that_would_overflow_are_refused() {
    let mut image = vec![0u8; 0x40];
    // ADD_ADDR_ULEB 2^63 - 1 twice: the second addition leaves isize.
    let add = [0x30, 0xff, 0xff, 0xff, 0xff, 0xff, 0xff, 0xff, 0xff, 0x7f];
    image[0..10].copy_from_slice(&add);
    image[10..20].copy_from_slice(&add);
    let ranges = DyldInfoRanges {
        rebase_off: 0,
        rebase_size: 20,
        bind_off: 0,
        bind_size: 0,
        weak_bind_off: 0,
        weak_bind_size: 0,
        lazy_bind_off: 0,
        lazy_bind_size: 0,
    };
    let commands = vec![Command64::DyldInfo(ranges)];
    assert_eq!(MachO64::load_commands(&image, &commands, "t".to_string(), 0).unwrap_err(), REBASE_REFUSED);
    // A bind that repeats 2^40 times is refused as too many entries.
    let mut image = vec![0u8; 0x40];
    image[0..8].copy_from_slice(&[0xc0, 0x80, 0x80, 0x80, 0x80, 0x80, 0x20, 0x00]);
    let binds = DyldInfoRanges { rebase_size: 0, bind_off: 0, bind_size: 8, ..ranges };
    let commands = vec![Command64::DyldInfo(binds)];
    assert_eq!(MachO64::load_commands(&image, &commands, "t".to_string(), 0).unwrap_err(), BIND_REFUSED);
}
