//! Preparing a 64-bit (ARM64) guest program to run: its initial stack with
//! the argument, environment and Apple strings, the host-call stubs it jumps
//! to, and what each way the CPU stops means for the run loop.

use vstd::prelude::*;
use crate::a64_runtime::{alloc_state, dispatch, dispatch_spec, state_of, write_state, A64Context, MemState};
use crate::mach_o64::Binding64;
use crate::mem64::{map_spec, round_down16, Mem64};
use vstd::string::StringSliceAdditionalSpecFns;
use crate::text::{str_chars, string_from_chars};

verus! {

/// Top of the guest stack.
pub const STACK_BASE: u64 = 0x7fff_ffff_0000;

/// Size of the guest stack.
pub const STACK_SIZE: u64 = 0x0010_0000;

/// Supervisor call that ends the guest thread.
pub const SVC_THREAD_EXIT: u32 = 1;

/// Supervisor call that returns from the guest entry point to the host.
pub const SVC_RETURN_TO_HOST: u32 = 2;

/// First supervisor call number used for host functions.
pub const SVC_HOST_BASE: u32 = 0x100;

/// Size of a host-call stub: `svc #n; ret`.
pub const HOST_STUB_SIZE: u64 = 8;

/// How many host calls a run may make.
pub const MAX_HOST_DISPATCHES: u64 = 1_000_000;

/// How many times in a row a host call may come from the same address.
pub const MAX_REPEATED_PC: u64 = 100_000;

pub const STACK_OVERFLOW: &'static str = "ARM64 stack overflow";

pub const STARTUP_STACK_TOO_LARGE: &'static str = "ARM64 startup stack is too large";

/// The AArch64 encoding of `svc #imm` (the immediate is 16 bits wide).
pub open spec fn svc_instruction(svc: u32) -> u32 {
    (0xd4000001u32 | ((((svc as u64) * 32) % 0x1_0000_0000) as u32)) as u32
}

/// The AArch64 encoding of `ret`.
pub const RET_INSTRUCTION: u32 = 0xd65f03c0;

/// A mapping of `size` zero bytes at `base`.
pub open spec fn map_state(st: MemState, base: u64, size: u64) -> Result<MemState, Seq<char>> {
    match map_spec(st.0, base, size) {
        Err(e) => Err(e),
        Ok(rs) => Ok((rs, st.1, st.2)),
    }
}

/// Pushing the NUL-terminated `bytes` below `cursor`: the string's address
/// (or why it failed), the memory after it and the new cursor.
pub open spec fn put_string_spec(st: MemState, cursor: u64, bytes: Seq<u8>) -> (Result<u64, Seq<char>>, MemState, u64) {
    if cursor < bytes.len() + 1 {
        (Err(STACK_OVERFLOW@), st, cursor)
    } else {
        let c = (cursor - bytes.len() - 1) as u64;
        match write_state(st, c, bytes) {
            Err(e) => (Err(e), st, c),
            Ok(st1) => match write_state(st1, (c + bytes.len()) as u64, seq![0u8]) {
                Err(e) => (Err(e), st1, c),
                Ok(st2) => (Ok(c), st2, c),
            },
        }
    }
}

/// Pushing `strs[i - 1]`, then `strs[i - 2]`, ..., then `strs[0]`, adding
/// each address to `addrs` in that order.
pub open spec fn put_strings_spec(st: MemState, cursor: u64, strs: Seq<Seq<u8>>, i: int, addrs: Seq<u64>) -> (
    Result<Seq<u64>, Seq<char>>,
    MemState,
    u64,
)
    decreases i,
{
    if i <= 0 {
        (Ok(addrs), st, cursor)
    } else {
        match put_string_spec(st, cursor, strs[i - 1]) {
            (Err(e), st1, c1) => (Err(e), st1, c1),
            (Ok(a), st1, c1) => put_strings_spec(st1, c1, strs, i - 1, addrs.push(a)),
        }
    }
}

/// Writing `words[i..]` as consecutive little-endian 64-bit values from `addr` on.
pub open spec fn write_words_spec(st: MemState, addr: u64, words: Seq<u64>, i: int) -> (Result<(), Seq<char>>, MemState)
    decreases words.len() - i,
{
    if i < 0 || i >= words.len() {
        (Ok(()), st)
    } else {
        match write_state(st, addr, vstd::bytes::spec_u64_to_le_bytes(words[i])) {
            Err(e) => (Err(e), st),
            Ok(st1) => write_words_spec(st1, (addr + 8) as u64, words, i + 1),
        }
    }
}

/// The UTF-8 bytes of each string.
pub open spec fn utf8_all(strs: Seq<String>) -> Seq<Seq<u8>> {
    strs.map_values(|s: String| vstd::utf8::encode_utf8(s@))
}

/// The initial stack: the stack region is mapped, the argument, environment
/// and Apple strings are pushed below its top (each list last string
/// first), then below them (16-byte aligned) come `argc` and the three
/// NULL-terminated pointer arrays, whose entries are the strings' addresses
/// in the order they were pushed. Gives the stack pointer and the addresses
/// of the three arrays.
pub open spec fn prepare_stack_spec(st: MemState, argv: Seq<Seq<u8>>, envp: Seq<Seq<u8>>, apple: Seq<Seq<u8>>) -> (
    Result<(u64, u64, u64, u64), Seq<char>>,
    MemState,
) {
    match map_state(st, (STACK_BASE - STACK_SIZE) as u64, STACK_SIZE) {
        Err(e) => (Err(e), st),
        Ok(st1) => match put_strings_spec(st1, STACK_BASE, argv, argv.len() as int, Seq::empty()) {
            (Err(e), st2, _) => (Err(e), st2),
            (Ok(argv_addrs), st2, c1) => match put_strings_spec(st2, c1, envp, envp.len() as int, Seq::empty()) {
                (Err(e), st3, _) => (Err(e), st3),
                (Ok(envp_addrs), st3, c2) => match put_strings_spec(st3, c2, apple, apple.len() as int, Seq::empty()) {
                    (Err(e), st4, _) => (Err(e), st4),
                    (Ok(apple_addrs), st4, c3) => {
                        let count = argv.len() + envp.len() + apple.len() + 4;
                        if count * 8 > u64::MAX {
                            (Err(STARTUP_STACK_TOO_LARGE@), st4)
                        } else if round_down16(c3 as int) < count * 8 {
                            (Err(STACK_OVERFLOW@), st4)
                        } else {
                            let sp = round_down16(round_down16(c3 as int) - count * 8) as u64;
                            let argv_ptr = (sp + 8) as u64;
                            let envp_ptr = (argv_ptr + (argv.len() + 1) * 8) as u64;
                            let apple_ptr = (envp_ptr + (envp.len() + 1) * 8) as u64;
                            let words = seq![argv.len() as u64] + argv_addrs + seq![0u64] + envp_addrs + seq![0u64]
                                + apple_addrs + seq![0u64];
                            match write_words_spec(st4, sp, words, 0) {
                                (Err(e), st5) => (Err(e), st5),
                                (Ok(()), st5) => (Ok((sp, argv_ptr, envp_ptr, apple_ptr)), st5),
                            }
                        }
                    },
                },
            },
        },
    }
}

/// Allocating a host-call stub for supervisor call `svc`.
pub open spec fn svc_stub_spec(st: MemState, svc: u32) -> (Result<u64, Seq<char>>, MemState) {
    match alloc_state(st, HOST_STUB_SIZE) {
        Err(e) => (Err(e), st),
        Ok((st1, stub)) => match write_state(st1, stub, vstd::bytes::spec_u32_to_le_bytes(svc_instruction(svc))) {
            Err(e) => (Err(e), st1),
            Ok(st2) => match write_state(st2, (stub + 4) as u64, vstd::bytes::spec_u32_to_le_bytes(RET_INSTRUCTION)) {
                Err(e) => (Err(e), st2),
                Ok(st3) => (Ok(stub), st3),
            },
        },
    }
}

pub open spec fn view_result<T>(r: Result<T, String>) -> Result<T, Seq<char>> {
    match r {
        Ok(v) => Ok(v),
        Err(e) => Err(e@),
    }
}

/// Pushes the NUL-terminated string `value` below `*cursor`, moving the
/// cursor to it; gives its address.
fn put_string(mem: &mut Mem64, cursor: &mut u64, value: &str) -> (r: Result<u64, String>)
    requires
        old(mem).wf(),
    ensures
        final(mem).wf(),
        (view_result(r), state_of(final(mem)), *final(cursor)) == put_string_spec(
            state_of(old(mem)),
            *old(cursor),
            value.spec_bytes(),
        ),
{
    let bytes = value.as_bytes();
    let below = match cursor.checked_sub(bytes.len() as u64) {
        Some(below) => below,
        None => return Err(STACK_OVERFLOW.to_owned()),
    };
    let start = match below.checked_sub(1) {
        Some(start) => start,
        None => return Err(STACK_OVERFLOW.to_owned()),
    };
    *cursor = start;
    if let Err(e) = mem.write_bytes(start, bytes) {
        return Err(e.to_owned());
    }
    if let Err(e) = mem.write_u8(start + bytes.len() as u64, 0) {
        return Err(e.to_owned());
    }
    Ok(start)
}

/// Pushes `strs`, last first, appending each address to `addrs`.
fn put_strings(mem: &mut Mem64, cursor: &mut u64, strs: &[String], addrs: &mut Vec<u64>) -> (r: Result<(), String>)
    requires
        old(mem).wf(),
    ensures
        final(mem).wf(),
        ({
            let (expected, st, c) = put_strings_spec(
                state_of(old(mem)),
                *old(cursor),
                utf8_all(strs@),
                strs@.len() as int,
                old(addrs)@,
            );
            &&& state_of(final(mem)) == st
            &&& *final(cursor) == c
            &&& match expected {
                Ok(a) => r is Ok && final(addrs)@ == a,
                Err(e) => r is Err && r->Err_0@ == e,
            }
        }),
{
    let ghost st0 = state_of(mem);
    let ghost c0 = *cursor;
    let ghost a0 = addrs@;
    let ghost all = utf8_all(strs@);
    let mut i = strs.len();
    while i > 0
        invariant
            mem.wf(),
            st0 == state_of(old(mem)),
            c0 == *old(cursor),
            a0 == old(addrs)@,
            i <= strs@.len(),
            all == utf8_all(strs@),
            put_strings_spec(st0, c0, all, strs@.len() as int, a0) == put_strings_spec(
                state_of(mem),
                *cursor,
                all,
                i as int,
                addrs@,
            ),
        decreases i,
    {
        let value = strs[i - 1].as_str();
        assert(value.spec_bytes() == all[i - 1]);
        let ghost before = state_of(mem);
        let ghost at = *cursor;
        match put_string(mem, cursor, value) {
            Ok(address) => addrs.push(address),
            Err(e) => {
                assert(put_strings_spec(before, at, all, i as int, addrs@) == (
                    Err::<Seq<u64>, Seq<char>>(e@),
                    state_of(mem),
                    *cursor,
                ));
                return Err(e);
            },
        }
        i = i - 1;
    }
    Ok(())
}

/// Writes `words` as consecutive little-endian 64-bit values from `addr` on.
fn write_words(mem: &mut Mem64, addr: u64, words: &Vec<u64>) -> (r: Result<(), String>)
    requires
        old(mem).wf(),
        addr + 8 * words@.len() <= u64::MAX + 8,
    ensures
        final(mem).wf(),
        (view_result(r), state_of(final(mem))) == write_words_spec(state_of(old(mem)), addr, words@, 0),
{
    let ghost st0 = state_of(mem);
    let mut k: usize = 0;
    let mut at = addr;
    while k < words.len()
        invariant
            mem.wf(),
            st0 == state_of(old(mem)),
            k <= words@.len(),
            at == addr + 8 * k,
            addr + 8 * words@.len() <= u64::MAX + 8,
            write_words_spec(st0, addr, words@, 0) == write_words_spec(state_of(mem), at, words@, k as int),
        decreases words@.len() - k,
    {
        let ghost before = state_of(mem);
        let result = mem.write_u64(at, words[k]);
        if let Err(e) = result {
            assert(write_words_spec(before, at, words@, k as int) == (Err::<(), Seq<char>>(e@), before));
            return Err(e.to_owned());
        }
        assert(write_words_spec(before, at, words@, k as int) == write_words_spec(
            state_of(mem),
            (at + 8) as u64,
            words@,
            k + 1,
        ));
        k = k + 1;
        if k < words.len() {
            at = at + 8;
        } else {
            assert(write_words_spec(state_of(mem), (at + 8) as u64, words@, k as int) == (
                Ok::<(), Seq<char>>(()),
                state_of(mem),
            ));
            return Ok(());
        }
    }
    Ok(())
}

proof fn lemma_put_strings_len(st: MemState, cursor: u64, strs: Seq<Seq<u8>>, i: int, addrs: Seq<u64>)
    requires
        i >= 0,
    ensures
        put_strings_spec(st, cursor, strs, i, addrs).0 is Ok ==> put_strings_spec(
            st,
            cursor,
            strs,
            i,
            addrs,
        ).0->Ok_0.len() == addrs.len() + i,
    decreases i,
{
    if i > 0 {
        match put_string_spec(st, cursor, strs[i - 1]) {
            (Err(e), st1, c1) => {},
            (Ok(a), st1, c1) => lemma_put_strings_len(st1, c1, strs, i - 1, addrs.push(a)),
        }
    }
}

/// Sets up the initial stack of the guest (see [`prepare_stack_spec`]):
/// gives the stack pointer and the addresses of the argument, environment
/// and Apple pointer arrays.
pub fn prepare_stack(mem: &mut Mem64, argv: &[String], envp: &[String], apple: &[String]) -> (r: Result<(u64, u64, u64, u64), String>)
    requires
        old(mem).wf(),
        argv@.len() + envp@.len() + apple@.len() + 4 <= usize::MAX,
    ensures
        final(mem).wf(),
        (view_result(r), state_of(final(mem))) == prepare_stack_spec(
            state_of(old(mem)),
            utf8_all(argv@),
            utf8_all(envp@),
            utf8_all(apple@),
        ),
{
    if let Err(e) = mem.map_zeroed(STACK_BASE - STACK_SIZE, STACK_SIZE) {
        return Err(e.to_owned());
    }
    let mut string_cursor = STACK_BASE & !15u64;
    assert(STACK_BASE & !15u64 == STACK_BASE) by (bit_vector);
    let mut argv_strings: Vec<u64> = Vec::with_capacity(argv.len());
    let mut envp_strings: Vec<u64> = Vec::with_capacity(envp.len());
    let mut apple_strings: Vec<u64> = Vec::with_capacity(apple.len());
    let ghost st1 = state_of(mem);
    put_strings(mem, &mut string_cursor, argv, &mut argv_strings)?;
    proof {
        lemma_put_strings_len(st1, STACK_BASE, utf8_all(argv@), argv@.len() as int, Seq::empty());
    }
    let ghost st2 = state_of(mem);
    let ghost c1 = string_cursor;
    put_strings(mem, &mut string_cursor, envp, &mut envp_strings)?;
    proof {
        lemma_put_strings_len(st2, c1, utf8_all(envp@), envp@.len() as int, Seq::empty());
    }
    let ghost st3 = state_of(mem);
    let ghost c2 = string_cursor;
    put_strings(mem, &mut string_cursor, apple, &mut apple_strings)?;
    proof {
        lemma_put_strings_len(st3, c2, utf8_all(apple@), apple@.len() as int, Seq::empty());
    }
    let pointer_count = argv.len() + envp.len() + apple.len() + 4;
    let pointer_bytes = match (pointer_count as u64).checked_mul(8) {
        Some(bytes) => bytes,
        None => return Err(STARTUP_STACK_TOO_LARGE.to_owned()),
    };
    let aligned_cursor = string_cursor & !15u64;
    proof {
        let x = string_cursor;
        assert(x & !15u64 == x - x % 16) by (bit_vector);
    }
    let sp = match aligned_cursor.checked_sub(pointer_bytes) {
        Some(below) => below & !15u64,
        None => return Err(STACK_OVERFLOW.to_owned()),
    };
    proof {
        let x = (aligned_cursor - pointer_bytes) as u64;
        assert(x & !15u64 == x - x % 16) by (bit_vector);
    }
    let argc = argv.len() as u64;
    let argv_ptr = sp + 8;
    let envp_ptr = argv_ptr + (argv.len() + 1) as u64 * 8;
    let apple_ptr = envp_ptr + (envp.len() + 1) as u64 * 8;
    let mut words: Vec<u64> = Vec::with_capacity(pointer_count);
    words.push(argc);
    let mut a = argv_strings.clone();
    words.append(&mut a);
    words.push(0);
    let mut e = envp_strings.clone();
    words.append(&mut e);
    words.push(0);
    let mut p = apple_strings.clone();
    words.append(&mut p);
    words.push(0);
    assert(words@ =~= seq![argc] + argv_strings@ + seq![0u64] + envp_strings@ + seq![0u64] + apple_strings@ + seq![0u64]);
    write_words(mem, sp, &words)?;
    Ok((sp, argv_ptr, envp_ptr, apple_ptr))
}

/// Allocates a stub of two instructions, `svc #svc` and `ret`, for the guest
/// to call; gives its address.
pub fn write_svc_stub(mem: &mut Mem64, svc: u32) -> (r: Result<u64, String>)
    requires
        old(mem).wf(),
    ensures
        final(mem).wf(),
        (view_result(r), state_of(final(mem))) == svc_stub_spec(state_of(old(mem)), svc),
{
    let stub = match mem.alloc_zeroed(HOST_STUB_SIZE) {
        Ok(stub) => stub,
        Err(e) => return Err(e.to_owned()),
    };
    proof {
        crate::mem64_laws::law_allocation_is_fresh(old(mem).regions(), old(mem).next_allocation(), HOST_STUB_SIZE);
    }
    let instruction = 0xd4000001u32 | (((svc as u64) << 5) as u32);
    proof {
        assert((((svc as u64) << 5) as u32) == ((((svc as u64) * 32) % 0x1_0000_0000) as u32)) by (bit_vector);
    }
    if let Err(e) = mem.write_u32(stub, instruction) {
        return Err(e.to_owned());
    }
    if let Err(e) = mem.write_u32(stub + 4, RET_INSTRUCTION) {
        return Err(e.to_owned());
    }
    Ok(stub)
}

/// A host-call stub: the symbol the guest imported through it first, the
/// host function it was resolved to, its supervisor call number and its
/// address in guest memory.
#[derive(Debug, Clone)]
pub struct HostStub {
    pub binding: String,
    pub symbol: String,
    pub svc: u32,
    pub address: u64,
}

/// The host-call stubs of a run, one per resolved host function, numbered
/// from [`SVC_HOST_BASE`] in the order they were made.
pub struct HostStubs {
    stubs: Vec<HostStub>,
}

/// The plain values of a stub.
pub open spec fn stub_view(s: HostStub) -> (Seq<char>, Seq<char>, u32, u64) {
    (s.binding@, s.symbol@, s.svc, s.address)
}

/// Where a stub for `symbol` stands in `stubs`, if one does.
pub open spec fn stub_index(stubs: Seq<(Seq<char>, Seq<char>, u32, u64)>, symbol: Seq<char>) -> Option<int> {
    if exists|i: int| 0 <= i < stubs.len() && stubs[i].1 == symbol {
        Some(choose|i: int| 0 <= i < stubs.len() && stubs[i].1 == symbol)
    } else {
        None
    }
}

impl HostStubs {
    pub closed spec fn view(&self) -> Seq<(Seq<char>, Seq<char>, u32, u64)> {
        self.stubs@.map_values(|s: HostStub| stub_view(s))
    }

    /// Stub `i` has call number `SVC_HOST_BASE + i`, and no two stubs are
    /// for the same host function.
    pub open spec fn wf(&self) -> bool {
        &&& self@.len() + SVC_HOST_BASE <= u32::MAX + 1
        &&& forall|i: int| 0 <= i < self@.len() ==> #[trigger] self@[i].2 == SVC_HOST_BASE + i
        &&& forall|i: int, j: int|
            0 <= i < self@.len() && 0 <= j < self@.len() && i != j ==> #[trigger] self@[i].1 != #[trigger] self@[j].1
    }

    pub fn new() -> (t: Self)
        ensures
            t.wf(),
            t@ == Seq::<(Seq<char>, Seq<char>, u32, u64)>::empty(),
    {
        let t = HostStubs { stubs: Vec::new() };
        assert(t@ =~= Seq::<(Seq<char>, Seq<char>, u32, u64)>::empty());
        t
    }

    pub fn len(&self) -> (n: usize)
        ensures
            n == self@.len(),
    {
        self.stubs.len()
    }

    fn find(&self, symbol: &String) -> (r: Option<usize>)
        requires
            self.wf(),
        ensures
            match r {
                Some(i) => i < self@.len() && self@[i as int].1 == symbol@ && stub_index(self@, symbol@) == Some(i as int),
                None => stub_index(self@, symbol@) is None,
            },
    {
        let mut i: usize = 0;
        while i < self.stubs.len()
            invariant
                self.wf(),
                i <= self.stubs@.len(),
                self@.len() == self.stubs@.len(),
                self@ == self.stubs@.map_values(|s: HostStub| stub_view(s)),
                forall|k: int| 0 <= k < i ==> self@[k].1 != symbol@,
            decreases self.stubs@.len() - i,
        {
            if self.stubs[i].symbol == *symbol {
                let ghost found = i as int;
                assert(self@[found].1 == symbol@);
                let ghost c = choose|k: int| 0 <= k < self@.len() && self@[k].1 == symbol@;
                assert(c == found) by {
                    if c != found {
                        assert(self@[c].1 != self@[found].1);
                    }
                }
                return Some(i);
            }
            i = i + 1;
        }
        None
    }

    /// The stub for host function `symbol`: the one made before, or a new
    /// one (see [`svc_stub_spec`]) with the next call number, first imported
    /// as `binding`.
    pub fn stub_for(&mut self, mem: &mut Mem64, binding: &String, symbol: &String) -> (r: Result<u64, String>)
        requires
            old(self).wf(),
            old(mem).wf(),
            old(self)@.len() + SVC_HOST_BASE < u32::MAX + 1,
        ensures
            final(self).wf(),
            final(mem).wf(),
            match stub_index(old(self)@, symbol@) {
                Some(i) => r == Ok::<u64, String>(old(self)@[i].3) && final(self)@ == old(self)@ && *final(mem) == *old(mem),
                None => {
                    let svc = (SVC_HOST_BASE + old(self)@.len()) as u32;
                    let (made, st) = svc_stub_spec(state_of(old(mem)), svc);
                    &&& view_result(r) == made
                    &&& state_of(final(mem)) == st
                    &&& final(self)@ == match made {
                        Ok(a) => old(self)@.push((binding@, symbol@, svc, a)),
                        Err(_) => old(self)@,
                    }
                },
            },
    {
        if let Some(i) = self.find(symbol) {
            return Ok(self.stubs[i].address);
        }
        let svc = SVC_HOST_BASE + self.stubs.len() as u32;
        let address = write_svc_stub(mem, svc)?;
        let stub = HostStub { binding: binding.clone(), symbol: symbol.clone(), svc, address };
        let ghost before = self@;
        self.stubs.push(stub);
        assert(self@ =~= before.push((binding@, symbol@, svc, address)));
        Ok(address)
    }

    /// The symbol first imported through the stub with call number `svc`.
    pub fn binding_for_svc(&self, svc: i32) -> (r: Option<&String>)
        requires
            self.wf(),
        ensures
            match r {
                Some(b) => SVC_HOST_BASE <= svc < SVC_HOST_BASE + self@.len() && b@ == self@[svc - SVC_HOST_BASE].0,
                None => !(SVC_HOST_BASE <= svc < SVC_HOST_BASE + self@.len()),
            },
    {
        if svc < SVC_HOST_BASE as i32 {
            return None;
        }
        let index = (svc - SVC_HOST_BASE as i32) as usize;
        if index < self.stubs.len() {
            Some(&self.stubs[index].binding)
        } else {
            None
        }
    }
}

/// Points the import at `binding.address` to the host stub for `symbol`,
/// making the stub if there is none yet.
pub fn bind_import(mem: &mut Mem64, stubs: &mut HostStubs, binding: &Binding64, symbol: &String) -> (r: Result<(), String>)
    requires
        old(mem).wf(),
        old(stubs).wf(),
        old(stubs)@.len() + SVC_HOST_BASE < u32::MAX + 1,
    ensures
        final(mem).wf(),
        final(stubs).wf(),
        match stub_index(old(stubs)@, symbol@) {
            Some(i) => {
                &&& final(stubs)@ == old(stubs)@
                &&& (view_result(r), state_of(final(mem))) == (
                    match write_state(state_of(old(mem)), binding.address, vstd::bytes::spec_u64_to_le_bytes(old(stubs)@[i].3)) {
                        Ok(st) => (Ok::<(), Seq<char>>(()), st),
                        Err(e) => (Err(e), state_of(old(mem))),
                    }
                )
            },
            None => {
                let svc = (SVC_HOST_BASE + old(stubs)@.len()) as u32;
                match svc_stub_spec(state_of(old(mem)), svc) {
                    (Err(e), st) => view_result(r) == Err::<(), Seq<char>>(e) && state_of(final(mem)) == st
                        && final(stubs)@ == old(stubs)@,
                    (Ok(a), st) => {
                        &&& final(stubs)@ == old(stubs)@.push((binding.symbol@, symbol@, svc, a))
                        &&& (view_result(r), state_of(final(mem))) == (
                            match write_state(st, binding.address, vstd::bytes::spec_u64_to_le_bytes(a)) {
                                Ok(st2) => (Ok::<(), Seq<char>>(()), st2),
                                Err(e) => (Err(e), st),
                            }
                        )
                    },
                }
            },
        },
{
    let target = stubs.stub_for(mem, &binding.symbol, symbol)?;
    match mem.write_u64(binding.address, target) {
        Ok(()) => Ok(()),
        Err(e) => Err(e.to_owned()),
    }
}

/// Why the guest CPU stopped, as the run loop tells the cases apart.
#[derive(Debug, Clone, Copy, PartialEq, Eq, Structural)]
pub enum Halt {
    /// Its time slice ran out: run it again.
    OutOfTicks,
    MemoryFault,
    UndefinedInstruction,
    Breakpoint,
    /// The guest left its entry point or its thread.
    Returned,
    /// It called the host function behind supervisor call `svc`.
    HostCall(u32),
    /// It made a supervisor call that no host function answers.
    UnimplementedSvc(u32),
    /// Any other failure code.
    Failed(i32),
}

/// The meaning of the code that the CPU returned from a run.
pub open spec fn halt_spec(code: i32) -> Halt {
    if code == -1 {
        Halt::OutOfTicks
    } else if code == -2 {
        Halt::MemoryFault
    } else if code == -3 {
        Halt::UndefinedInstruction
    } else if code == -4 {
        Halt::Breakpoint
    } else if code == SVC_THREAD_EXIT || code == SVC_RETURN_TO_HOST {
        Halt::Returned
    } else if code >= SVC_HOST_BASE {
        Halt::HostCall(code as u32)
    } else if code >= 0 {
        Halt::UnimplementedSvc(code as u32)
    } else {
        Halt::Failed(code)
    }
}

pub fn classify_halt(code: i32) -> (h: Halt)
    ensures
        h == halt_spec(code),
{
    if code == -1 {
        Halt::OutOfTicks
    } else if code == -2 {
        Halt::MemoryFault
    } else if code == -3 {
        Halt::UndefinedInstruction
    } else if code == -4 {
        Halt::Breakpoint
    } else if code == SVC_THREAD_EXIT as i32 || code == SVC_RETURN_TO_HOST as i32 {
        Halt::Returned
    } else if code >= SVC_HOST_BASE as i32 {
        Halt::HostCall(code as u32)
    } else if code >= 0 {
        Halt::UnimplementedSvc(code as u32)
    } else {
        Halt::Failed(code)
    }
}

/// What the run loop counts of the host calls: how many were made, the
/// address of the last one and how many in a row came from that address.
#[derive(Debug, Clone, Copy)]
pub struct RunState {
    pub host_dispatches: u64,
    pub last_pc: u64,
    pub repeated_pc: u64,
}

impl RunState {
    /// The counts before the guest runs from `entry`.
    pub fn new(entry: u64) -> (s: Self)
        ensures
            s.host_dispatches == 0,
            s.last_pc == entry,
            s.repeated_pc == 0,
    {
        RunState { host_dispatches: 0, last_pc: entry, repeated_pc: 0 }
    }

    /// Counts a host call made from `pc`; true if the guest has now made
    /// more than [`MAX_REPEATED_PC`] calls in a row from one address, which
    /// is taken as a stall.
    pub fn record_host_call(&mut self, pc: u64) -> (stalled: bool)
        requires
            old(self).repeated_pc <= old(self).host_dispatches <= MAX_HOST_DISPATCHES,
        ensures
            final(self).host_dispatches == old(self).host_dispatches + 1,
            final(self).last_pc == pc,
            final(self).repeated_pc == if pc == old(self).last_pc { old(self).repeated_pc + 1 } else { 0 },
            final(self).repeated_pc <= final(self).host_dispatches,
            stalled == (final(self).repeated_pc > MAX_REPEATED_PC),
    {
        self.host_dispatches = self.host_dispatches + 1;
        if pc == self.last_pc {
            self.repeated_pc = self.repeated_pc + 1;
        } else {
            self.last_pc = pc;
            self.repeated_pc = 0;
        }
        self.repeated_pc > MAX_REPEATED_PC
    }

    /// Whether the run has made more host calls than it may.
    pub fn too_many_host_calls(&self) -> (r: bool)
        ensures
            r == (self.host_dispatches > MAX_HOST_DISPATCHES),
    {
        self.host_dispatches > MAX_HOST_DISPATCHES
    }
}

/// What a host call came to.
#[derive(Debug, Clone, Copy, PartialEq, Eq, Structural)]
pub enum HostCallOutcome {
    /// The call was answered and the guest resumes at its link register;
    /// `false` where the runtime does not implement the function and
    /// returned zero.
    Resumed(bool),
    /// The guest has made more than [`MAX_REPEATED_PC`] host calls in a row
    /// from one address.
    Stalled,
    /// The run has made more than [`MAX_HOST_DISPATCHES`] host calls.
    TooManyCalls,
}

/// The name a host call is dispatched by: the symbol first imported through
/// the stub with call number `svc`, or `<unknown>`.
pub open spec fn svc_binding(stubs: Seq<(Seq<char>, Seq<char>, u32, u64)>, svc: u32) -> Seq<char> {
    if svc <= i32::MAX && SVC_HOST_BASE <= svc < SVC_HOST_BASE + stubs.len() {
        stubs[svc - SVC_HOST_BASE].0
    } else {
        "<unknown>"@
    }
}

/// One host call of the run loop, made by supervisor call `svc` from the
/// guest's `pc`: it is counted; a stall ends it before anything runs;
/// otherwise the function named [`svc_binding`] is dispatched, and unless
/// that fails or the run has now made too many host calls, the guest is
/// set to resume at its link register. The name is given back with the
/// outcome.
pub fn host_call_step(mem: &mut Mem64, context: &mut A64Context, state: &mut RunState, stubs: &HostStubs, svc: u32) -> (r: (
    Result<HostCallOutcome, String>,
    String,
))
    requires
        old(mem).wf(),
        stubs.wf(),
        old(state).repeated_pc <= old(state).host_dispatches <= MAX_HOST_DISPATCHES,
    ensures
        final(mem).wf(),
        r.1@ == svc_binding(stubs@, svc),
        final(state).host_dispatches == old(state).host_dispatches + 1,
        final(state).last_pc == old(context).pc,
        final(state).repeated_pc == if old(context).pc == old(state).last_pc { old(state).repeated_pc + 1 } else { 0 },
        final(state).repeated_pc <= final(state).host_dispatches,
        final(state).repeated_pc > MAX_REPEATED_PC ==> r.0 == Ok::<HostCallOutcome, String>(HostCallOutcome::Stalled)
            && *final(mem) == *old(mem) && *final(context) == *old(context),
        final(state).repeated_pc <= MAX_REPEATED_PC ==> ({
            let d = dispatch_spec(state_of(old(mem)), old(context).regs@, svc_binding(stubs@, svc));
            &&& state_of(final(mem)) == d.1
            &&& final(context).regs@ == d.2
            &&& final(context).sp == old(context).sp
            &&& match d.0 {
                Err(e) => r.0 is Err && r.0->Err_0@ == e && final(context).pc == old(context).pc,
                Ok(implemented) => if final(state).host_dispatches > MAX_HOST_DISPATCHES {
                    r.0 == Ok::<HostCallOutcome, String>(HostCallOutcome::TooManyCalls) && final(context).pc == old(context).pc
                } else {
                    r.0 == Ok::<HostCallOutcome, String>(HostCallOutcome::Resumed(implemented)) && final(context).pc == d.2[30]
                },
            }
        }),
{
    let found = if svc <= i32::MAX as u32 {
        stubs.binding_for_svc(svc as i32)
    } else {
        None
    };
    let name = match found {
        Some(b) => b.clone(),
        None => {
            proof {
                reveal_strlit("<unknown>");
            }
            "<unknown>".to_owned()
        },
    };
    if state.record_host_call(context.pc) {
        return (Ok(HostCallOutcome::Stalled), name);
    }
    let implemented = match dispatch(mem, context, name.as_str()) {
        Ok(implemented) => implemented,
        Err(e) => return (Err(e), name),
    };
    if state.too_many_host_calls() {
        return (Ok(HostCallOutcome::TooManyCalls), name);
    }
    return_from_host_call(context);
    (Ok(HostCallOutcome::Resumed(implemented)), name)
}

/// The registers the guest starts with: the stack pointer, the entry point,
/// `argc` and the three array addresses in x0 to x3, and the return stub in
/// the link register.
pub fn initial_context(entry: u64, sp: u64, argc: u64, argv_ptr: u64, envp_ptr: u64, apple_ptr: u64, return_stub: u64) -> (c: A64Context)
    ensures
        c.sp == sp,
        c.pc == entry,
        c.regs[0] == argc,
        c.regs[1] == argv_ptr,
        c.regs[2] == envp_ptr,
        c.regs[3] == apple_ptr,
        c.regs[30] == return_stub,
        forall|i: int| 4 <= i < 30 ==> c.regs[i] == 0,
{
    let mut regs = [0u64; 31];
    regs[0] = argc;
    regs[1] = argv_ptr;
    regs[2] = envp_ptr;
    regs[3] = apple_ptr;
    regs[30] = return_stub;
    A64Context { regs, sp, pc: entry }
}

/// Resumes the guest where the host call returns to: at its link register.
pub fn return_from_host_call(context: &mut A64Context)
    ensures
        final(context).pc == old(context).regs[30],
        final(context).regs == old(context).regs,
        final(context).sp == old(context).sp,
{
    context.pc = context.regs[30];
}

/// The guest's arguments: the executable's path, then `app_args`; and its
/// Apple strings: `executable_path=` and the path.
pub fn launch_arguments(executable_path: &str, app_args: &[String]) -> (r: (Vec<String>, Vec<String>))
    ensures
        r.0.deep_view() == seq![executable_path@] + app_args.deep_view(),
        r.1.deep_view() == seq!["executable_path="@ + executable_path@],
{
    let mut argv: Vec<String> = Vec::new();
    argv.push(executable_path.to_owned());
    let mut i: usize = 0;
    while i < app_args.len()
        invariant
            i <= app_args@.len(),
            argv.deep_view() == seq![executable_path@] + app_args.deep_view().subrange(0, i as int),
        decreases app_args@.len() - i,
    {
        let ghost before = argv.deep_view();
        argv.push(app_args[i].clone());
        assert(argv.deep_view() =~= before.push(app_args.deep_view()[i as int]));
        assert(app_args.deep_view().subrange(0, i + 1) =~= app_args.deep_view().subrange(0, i as int).push(
            app_args.deep_view()[i as int],
        ));
        i = i + 1;
    }
    assert(app_args.deep_view().subrange(0, app_args@.len() as int) =~= app_args.deep_view());
    let mut chars = str_chars("executable_path=");
    let mut path = str_chars(executable_path);
    chars.append(&mut path);
    let mut apple: Vec<String> = Vec::new();
    apple.push(string_from_chars(chars.as_slice()));
    assert(apple.deep_view() =~= seq!["executable_path="@ + executable_path@]);
    (argv, apple)
}

} // verus!
