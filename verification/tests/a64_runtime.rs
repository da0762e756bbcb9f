use touchhle::a64_runtime::{dispatch, A64Context, CALLOC_OVERFLOWS};
use touchhle::mem64::Mem64;

fn context(args: &[u64]) -> A64Context {
    let mut regs = [0u64; 31];
    regs[..args.len()].copy_from_slice(args);
    A64Context { regs, sp: 0x8000, pc: 0x4000 }
}

fn put_c_string(mem: &mut Mem64, text: &[u8]) -> u64 {
    let address = mem.alloc_zeroed(text.len() as u64 + 1).unwrap();
    mem.write_bytes(address, text).unwrap();
    address
}

#[test]
fn malloc_and_calloc_return_zeroed_memory() {
    let mut mem = Mem64::new();
    let mut c = context(&[24]);
    assert_eq!(dispatch(&mut mem, &mut c, "_malloc"), Ok(true));
    let a = c.regs[0];
    assert_eq!(mem.allocation_size(a), Some(32));
    assert_eq!(mem.read_u64(a + 16), Ok(0));
    let mut c = context(&[3, 8]);
    assert_eq!(dispatch(&mut mem, &mut c, "calloc"), Ok(true));
    assert_eq!(mem.allocation_size(c.regs[0]), Some(32));
    let mut c = context(&[u64::MAX, 2]);
    assert_eq!(dispatch(&mut mem, &mut c, "calloc"), Err(CALLOC_OVERFLOWS.to_string()));
}

#[test]
fn posix_memalign_stores_the_address() {
    let mut mem = Mem64::new();
    let slot = mem.alloc_zeroed(8).unwrap();
    let mut c = context(&[slot, 16, 40]);
    assert_eq!(dispatch(&mut mem, &mut c, "posix_memalign"), Ok(true));
    assert_eq!(c.regs[0], 0);
    let stored = mem.read_u64(slot).unwrap();
    assert_eq!(mem.allocation_size(stored), Some(48));
}

#[test]
fn realloc_keeps_the_old_contents() {
    let mut mem = Mem64::new();
    let old = put_c_string(&mut mem, b"hello");
    let mut c = context(&[old, 64]);
    assert_eq!(dispatch(&mut mem, &mut c, "realloc"), Ok(true));
    let new = c.regs[0];
    assert_ne!(new, old);
    assert_eq!(mem.read_bytes(new, 6), Ok(b"hello\0".to_vec()));
    assert_eq!(mem.allocation_size(new), Some(64));
}

#[test]
fn string_functions_compare_and_measure() {
    let mut mem = Mem64::new();
    let abc = put_c_string(&mut mem, b"abc");
    let abd = put_c_string(&mut mem, b"abd");
    let ab = put_c_string(&mut mem, b"ab");
    let mut c = context(&[abc]);
    assert_eq!(dispatch(&mut mem, &mut c, "strlen"), Ok(true));
    assert_eq!(c.regs[0], 3);
    let mut c = context(&[abc, abd]);
    dispatch(&mut mem, &mut c, "strcmp").unwrap();
    assert_eq!(c.regs[0], (-1i64) as u64);
    let mut c = context(&[abd, abc]);
    dispatch(&mut mem, &mut c, "strcmp").unwrap();
    assert_eq!(c.regs[0], 1);
    let mut c = context(&[abc, abc]);
    dispatch(&mut mem, &mut c, "strcmp").unwrap();
    assert_eq!(c.regs[0], 0);
    let mut c = context(&[abc, ab]);
    dispatch(&mut mem, &mut c, "strcmp").unwrap();
    assert_eq!(c.regs[0], 1);
    let mut c = context(&[abc, abd, 2]);
    dispatch(&mut mem, &mut c, "strncmp").unwrap();
    assert_eq!(c.regs[0], 0);
    let mut c = context(&[abc, abd, 3]);
    dispatch(&mut mem, &mut c, "memcmp").unwrap();
    assert_eq!(c.regs[0], (-1i64) as u64);
}

#[test]
fn memory_functions_copy_and_fill() {
    let mut mem = Mem64::new();
    let src = put_c_string(&mut mem, b"data");
    let dst = mem.alloc_zeroed(16).unwrap();
    let mut c = context(&[dst, src, 4]);
    assert_eq!(dispatch(&mut mem, &mut c, "memcpy"), Ok(true));
    assert_eq!(c.regs[0], dst);
    assert_eq!(mem.read_bytes(dst, 4), Ok(b"data".to_vec()));
    let mut c = context(&[dst, 0x41, 3]);
    dispatch(&mut mem, &mut c, "memset").unwrap();
    assert_eq!(mem.read_bytes(dst, 4), Ok(b"AAAa".to_vec()));
    let mut c = context(&[dst, 2]);
    dispatch(&mut mem, &mut c, "bzero").unwrap();
    assert_eq!(mem.read_bytes(dst, 4), Ok(b"\0\0Aa".to_vec()));
}

#[test]
fn objective_c_calls_get_simple_answers() {
    let mut mem = Mem64::new();
    let mut c = context(&[0x1234]);
    dispatch(&mut mem, &mut c, "objc_retain").unwrap();
    assert_eq!(c.regs[0], 0x1234);
    let mut c = context(&[0x1234]);
    dispatch(&mut mem, &mut c, "objc_msgSend").unwrap();
    assert_eq!(c.regs[0], 0);
    let mut c = context(&[0x55]);
    dispatch(&mut mem, &mut c, "sel_registerName").unwrap();
    assert_eq!(c.regs[0], 0x55);
    let mut c = context(&[]);
    dispatch(&mut mem, &mut c, "objc_autoreleasePoolPush").unwrap();
    assert_eq!(mem.allocation_size(c.regs[0]), Some(16));
}

#[test]
fn unknown_functions_are_not_handled() {
    let mut mem = Mem64::new();
    let mut c = context(&[0]);
    assert_eq!(dispatch(&mut mem, &mut c, "_UIApplicationMain"), Ok(false));
    let block = put_c_string(&mut mem, b"NSConcreteGlobalBlock");
    let mut c = context(&[block]);
    assert_eq!(dispatch(&mut mem, &mut c, "_whatever"), Ok(true));
    assert_eq!(c.regs[0], 0);
}
