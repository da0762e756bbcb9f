use touchhle::mem64::{Mem64, Region};

#[test]
fn allocations_skip_loaded_regions() {
    let mut mem = Mem64::new();
    mem.map_zeroed(0x1_0000_0000, 0x2000).unwrap();
    let allocation = mem.alloc_zeroed(0x100).unwrap();
    assert_eq!(allocation, 0x1_0000_2000);
}

#[test]
fn accesses_are_checked_at_region_boundaries() {
    let mut mem = Mem64::new();
    mem.map_zeroed(0x1_0000_0000, 0x10).unwrap();
    assert!(mem.write_u64(0x1_0000_0008, 1).is_ok());
    assert!(mem.write_u64(0x1_0000_0009, 1).is_err());
    assert!(mem.read_u32(0x1_0000_000e).is_err());
}

#[test]
fn reads_give_back_what_was_written() {
    let mut mem = Mem64::new();
    mem.map_zeroed(0x1000, 0x100).unwrap();
    mem.write_bytes(0x1010, &[1, 2, 3, 4]).unwrap();
    assert_eq!(mem.read_bytes(0x1010, 4).unwrap(), vec![1, 2, 3, 4]);
    assert_eq!(mem.read_bytes(0x100c, 4).unwrap(), vec![0, 0, 0, 0]);
    mem.write_u64(0x1020, 0x1122_3344_5566_7788).unwrap();
    assert_eq!(mem.read_u64(0x1020).unwrap(), 0x1122_3344_5566_7788);
    assert_eq!(mem.read_u8(0x1020).unwrap(), 0x88);
    assert_eq!(mem.read_u16(0x1020).unwrap(), 0x7788);
    assert_eq!(mem.read_u32(0x1024).unwrap(), 0x1122_3344);
    mem.write_u128(0x1040, [1, 2]).unwrap();
    assert_eq!(mem.read_u128(0x1040).unwrap(), [1, 2]);
    assert_eq!(mem.read_u64(0x1048).unwrap(), 2);
    mem.write_u16(0x1060, 0xbeef).unwrap();
    mem.write_u32(0x1062, 0xdead_f00d).unwrap();
    mem.write_u8(0x1066, 7).unwrap();
    assert_eq!(mem.read_bytes(0x1060, 7).unwrap(), vec![0xef, 0xbe, 0x0d, 0xf0, 0xad, 0xde, 7]);
}

#[test]
fn error_messages_name_the_fault() {
    let mut mem = Mem64::new();
    assert_eq!(mem.read_u8(0x10), Err("64-bit memory access is unmapped"));
    mem.map_zeroed(0x1000, 0x10).unwrap();
    assert_eq!(mem.read_u8(0x10), Err("64-bit memory access is unmapped"));
    assert_eq!(mem.read_bytes(0x1008, 9), Err("64-bit memory access is out of bounds"));
    assert_eq!(mem.read_bytes(0x1008, u64::MAX), Err("64-bit access overflows"));
    assert_eq!(mem.map_zeroed(0x1008, 0x10), Err("64-bit mapping overlaps an existing mapping"));
    assert_eq!(mem.map_zeroed(0xff8, 0x10), Err("64-bit mapping overlaps an existing mapping"));
    assert_eq!(mem.map_zeroed(u64::MAX, 2), Err("64-bit mapping overflows"));
    assert_eq!(mem.map_zeroed(0x5000, 0), Ok(()));
    assert_eq!(mem.mapped_regions(), vec![Region { base: 0x1000, size: 0x10 }]);
}

#[test]
fn regions_are_listed_in_address_order() {
    let mut mem = Mem64::new();
    mem.map_zeroed(0x3000, 0x10).unwrap();
    mem.map_zeroed(0x1000, 0x20).unwrap();
    mem.map_zeroed(0x2000, 0x1000).unwrap();
    mem.map_zeroed(0x1020, 0x10).unwrap();
    assert_eq!(
        mem.mapped_regions(),
        vec![
            Region { base: 0x1000, size: 0x20 },
            Region { base: 0x1020, size: 0x10 },
            Region { base: 0x2000, size: 0x1000 },
            Region { base: 0x3000, size: 0x10 },
        ]
    );
    assert!(mem.read_bytes(0x101f, 2).is_err());
}

#[test]
fn fill_and_copy_move_bytes() {
    let mut mem = Mem64::new();
    mem.map_zeroed(0x1000, 0x40).unwrap();
    mem.fill_bytes(0x1004, 0xaa, 4).unwrap();
    assert_eq!(mem.read_bytes(0x1003, 6).unwrap(), vec![0, 0xaa, 0xaa, 0xaa, 0xaa, 0]);
    mem.copy_bytes(0x1020, 0x1004, 4).unwrap();
    assert_eq!(mem.read_bytes(0x1020, 4).unwrap(), vec![0xaa; 4]);
    assert_eq!(mem.copy_bytes(0x1020, 0x1040, 4), Err("64-bit memory access is out of bounds"));
    assert_eq!(mem.fill_bytes(0x103e, 1, 4), Err("64-bit memory access is out of bounds"));
}

#[test]
fn c_strings_end_at_the_first_nul() {
    let mut mem = Mem64::new();
    mem.map_zeroed(0x1000, 0x10).unwrap();
    mem.write_bytes(0x1000, b"hello\0world").unwrap();
    assert_eq!(mem.cstr_len(0x1000, 100), Ok(5));
    assert_eq!(mem.cstr_len(0x1000, 3), Err("64-bit string has no terminator within the safety limit"));
    mem.write_bytes(0x1000, &[b'x'; 16]).unwrap();
    assert_eq!(mem.cstr_len(0x1000, 100), Err("64-bit memory access is out of bounds"));
}

#[test]
fn allocations_are_zeroed_aligned_and_recorded() {
    let mut mem = Mem64::new();
    let a = mem.alloc_zeroed(1).unwrap();
    let b = mem.alloc_zeroed(17).unwrap();
    assert_eq!(a, 0x1_0000_0000);
    assert_eq!(b, 0x1_0000_0010);
    assert_eq!(mem.allocation_size(a), Some(16));
    assert_eq!(mem.allocation_size(b), Some(32));
    assert_eq!(mem.allocation_size(b + 1), None);
    assert_eq!(mem.read_bytes(b, 32).unwrap(), vec![0; 32]);
    mem.map_zeroed(0x1_0000_0030, 0x5).unwrap();
    let c = mem.alloc_zeroed(16).unwrap();
    assert_eq!(c, 0x1_0000_0040);
    assert_eq!(mem.alloc_zeroed(u64::MAX), Err("allocation size overflows"));
}

#[test]
fn an_allocation_keeps_its_size_and_a_value_survives_later_calls() {
    let mut mem = Mem64::new();
    let a = mem.alloc_zeroed(20).unwrap();
    mem.write_u64(a, 0x1122_3344_5566_7788).unwrap();
    let b = mem.alloc_zeroed(64).unwrap();
    mem.write_bytes(b, &[1, 2, 3, 4]).unwrap();
    mem.fill_bytes(b + 8, 0xff, 16).unwrap();
    mem.map_zeroed(0x7000_0000, 0x1000).unwrap();
    mem.write_u32(a + 8, 7).unwrap();
    assert_eq!(mem.allocation_size(a), Some(32));
    assert_eq!(mem.allocation_size(b), Some(64));
    assert_eq!(mem.allocation_size(a + 16), None);
    assert_eq!(mem.read_u64(a), Ok(0x1122_3344_5566_7788));
}
