//! Host implementations of the C and Objective-C runtime functions that a
//! 64-bit (ARM64) guest program imports: each call reads its arguments from
//! the guest registers, works on guest memory, and sets the return register.

use vstd::prelude::*;
use crate::mem64::{
    alloc_spec, cstr_len_spec, insert_region, read_bytes_spec, repeated, write_bytes_spec,
    Mem64, COPY_TOO_LARGE, FILL_TOO_LARGE,
};
use crate::text::{chars_eq, str_chars};

verus! {

/// Register state of a 64-bit ARM guest thread.
#[derive(Debug, Clone, Copy)]
pub struct A64Context {
    /// General-purpose registers x0 to x30 (x30 is the link register).
    pub regs: [u64; 31],
    pub sp: u64,
    pub pc: u64,
}

/// Guest memory as the contracts see it: the regions, the allocations and
/// where the allocator looks next.
pub type MemState = (Seq<(u64, Seq<u8>)>, Map<u64, u64>, u64);

pub open spec fn state_of(m: &Mem64) -> MemState {
    (m.regions(), m.allocations(), m.next_allocation())
}

/// The longest C string the runtime reads, in bytes.
pub const C_STRING_LIMIT: u64 = 1048576;

pub const CALLOC_OVERFLOWS: &'static str = "ARM64 calloc size overflows";

/// An allocation of `size` bytes: the new state and the address.
pub open spec fn alloc_state(st: MemState, size: u64) -> Result<(MemState, u64), Seq<char>> {
    match alloc_spec(st.0, st.2, size) {
        Err(e) => Err(e),
        Ok((b, rounded)) => Ok(((insert_region(st.0, b, rounded as int), st.1.insert(b, rounded), (b + rounded) as u64), b)),
    }
}

/// A write of `data` at `addr`.
pub open spec fn write_state(st: MemState, addr: u64, data: Seq<u8>) -> Result<MemState, Seq<char>> {
    match write_bytes_spec(st.0, addr, data) {
        Err(e) => Err(e),
        Ok(rs) => Ok((rs, st.1, st.2)),
    }
}

/// A copy of `size` bytes from `source` to `destination`.
pub open spec fn copy_state(st: MemState, destination: u64, source: u64, size: u64) -> Result<MemState, Seq<char>> {
    if size > usize::MAX {
        Err(COPY_TOO_LARGE@)
    } else {
        match read_bytes_spec(st.0, source, size) {
            Err(e) => Err(e),
            Ok(data) => write_state(st, destination, data),
        }
    }
}

/// Setting `size` bytes at `addr` to `value`.
pub open spec fn fill_state(st: MemState, addr: u64, value: u8, size: u64) -> Result<MemState, Seq<char>> {
    if size > usize::MAX {
        Err(FILL_TOO_LARGE@)
    } else {
        write_state(st, addr, repeated(value, size as int))
    }
}

/// The C string at `addr` (at most [`C_STRING_LIMIT`] bytes long), if it
/// can be read.
pub open spec fn c_string_spec(rs: Seq<(u64, Seq<u8>)>, addr: u64) -> Option<Seq<u8>> {
    match cstr_len_spec(rs, addr, C_STRING_LIMIT) {
        Ok(n) => match read_bytes_spec(rs, addr, n) {
            Ok(b) => Some(b),
            Err(_) => None,
        },
        Err(_) => None,
    }
}

/// Whether `bytes` are the ASCII encoding of `text`.
pub open spec fn ascii_eq(bytes: Seq<u8>, text: Seq<char>) -> bool {
    bytes.len() == text.len() && forall|i: int| 0 <= i < bytes.len() ==> bytes[i] as u32 == #[trigger] text[i] as u32
}

/// `symbol` without its leading underscores.
pub open spec fn strip_underscores(s: Seq<char>) -> Seq<char>
    decreases s.len(),
{
    if s.len() > 0 && s[0] == '_' {
        strip_underscores(s.drop_first())
    } else {
        s
    }
}

/// First index in `[i, n)` where `left` and `right` differ.
pub open spec fn first_difference(left: Seq<u8>, right: Seq<u8>, i: int, n: int) -> Option<int>
    decreases n - i,
{
    if i >= n {
        None
    } else if left[i] != right[i] {
        Some(i)
    } else {
        first_difference(left, right, i + 1, n)
    }
}

/// The comparison that `strcmp` and `strncmp` return: the difference of the
/// first differing bytes within `limit`, else the difference of the lengths
/// cut to `limit`.
pub open spec fn compare_c_strings(left: Seq<u8>, right: Seq<u8>, limit: int) -> int {
    let n = vstd::math::min(vstd::math::min(left.len() as int, right.len() as int), limit);
    match first_difference(left, right, 0, n) {
        Some(i) => left[i] - right[i],
        None => vstd::math::min(left.len() as int, limit) - vstd::math::min(right.len() as int, limit),
    }
}

/// The first difference of two byte strings of equal length, or 0.
pub open spec fn compare_bytes(left: Seq<u8>, right: Seq<u8>) -> int {
    compare_c_strings(left, right, left.len() as int)
}

/// A 32-bit signed result as the 64-bit register holds it (sign-extended).
pub open spec fn sign_extend(v: int) -> u64 {
    if v < 0 {
        (v + 0x1_0000_0000_0000_0000) as u64
    } else {
        v as u64
    }
}

pub open spec fn is_allocator_name(name: Seq<char>) -> bool {
    name == "malloc"@ || name == "calloc"@ || name == "valloc"@ || name == "posix_memalign"@
}

pub open spec fn is_release_name(name: Seq<char>) -> bool {
    name == "free"@ || name == "malloc_zone_free"@ || name == "objc_release"@ || name == "objc_storeStrong"@
}

pub open spec fn is_realloc_name(name: Seq<char>) -> bool {
    name == "realloc"@ || name == "malloc_zone_realloc"@
}

pub open spec fn is_copy_name(name: Seq<char>) -> bool {
    name == "memcpy"@ || name == "memmove"@ || name == "__memcpy_chk"@ || name == "__memmove_chk"@
}

pub open spec fn is_fill_name(name: Seq<char>) -> bool {
    name == "memset"@ || name == "bzero"@ || name == "__memset_chk"@
}

pub open spec fn is_compare_name(name: Seq<char>) -> bool {
    name == "strcmp"@ || name == "strncmp"@
}

pub open spec fn is_retain_name(name: Seq<char>) -> bool {
    name == "objc_retain"@ || name == "objc_retainAutoreleasedReturnValue"@ || name == "objc_retainAutoreleaseReturnValue"@ || name == "objc_autorelease"@ || name == "objc_autoreleaseReturnValue"@ || name == "objc_unsafeClaimAutoreleasedReturnValue"@ || name == "objc_retainAutorelease"@ || name == "objc_retainBlock"@
}

pub open spec fn is_message_name(name: Seq<char>) -> bool {
    name == "objc_msgSend"@ || name == "objc_msgSendSuper2"@ || name == "objc_msgSend_stret"@ || name == "objc_msgSendSuper2_stret"@
}

pub open spec fn is_class_name(name: Seq<char>) -> bool {
    name == "objc_getClass"@ || name == "objc_getRequiredClass"@ || name == "objc_lookUpClass"@
}

pub open spec fn is_selector_name(name: Seq<char>) -> bool {
    name == "sel_registerName"@ || name == "sel_getUid"@
}

pub open spec fn is_pool_pop_name(name: Seq<char>) -> bool {
    name == "objc_autoreleasePoolPop"@ || name == "objc_exception_throw"@ || name == "objc_begin_catch"@ || name == "objc_end_catch"@
}

pub open spec fn is_setup_name(name: Seq<char>) -> bool {
    name == "__cxa_atexit"@ || name == "atexit"@ || name == "pthread_mutex_lock"@ || name == "pthread_mutex_unlock"@ || name == "pthread_mutex_init"@ || name == "pthread_mutex_destroy"@
}

pub open spec fn is_log_name(name: Seq<char>) -> bool {
    name == "NSLog"@ || name == "NSLogv"@ || name == "os_log"@ || name == "os_logv"@
}

/// What a dispatched call gives: whether it was handled (or why it failed),
/// the memory after it, and the registers after it.
pub type DispatchOutcome = (Result<bool, Seq<char>>, MemState, Seq<u64>);

/// Returns `value` in x0.
pub open spec fn returning(st: MemState, regs: Seq<u64>, value: u64) -> DispatchOutcome {
    (Ok(true), st, regs.update(0, value))
}

pub open spec fn alloc_call(st: MemState, regs: Seq<u64>, name: Seq<char>) -> DispatchOutcome {
    let size: Option<u64> = if name == "calloc"@ {
        if regs[0] * regs[1] > u64::MAX {
            None
        } else {
            Some((regs[0] * regs[1]) as u64)
        }
    } else if name == "posix_memalign"@ {
        Some(regs[2])
    } else {
        Some(regs[0])
    };
    match size {
        None => (Err(CALLOC_OVERFLOWS@), st, regs),
        Some(size) => match alloc_state(st, size) {
            Err(e) => (Err(e), st, regs),
            Ok((st2, address)) => if name == "posix_memalign"@ {
                match write_state(st2, regs[0], vstd::bytes::spec_u64_to_le_bytes(address)) {
                    Err(e) => (Err(e), st2, regs),
                    Ok(st3) => returning(st3, regs, 0),
                }
            } else {
                returning(st2, regs, address)
            },
        },
    }
}

pub open spec fn realloc_call(st: MemState, regs: Seq<u64>) -> DispatchOutcome {
    let old = regs[0];
    let size = regs[1];
    match alloc_state(st, size) {
        Err(e) => (Err(e), st, regs),
        Ok((st2, address)) => if old != 0 && st2.1.contains_key(old) {
            match copy_state(st2, address, old, vstd::math::min(st2.1[old] as int, size as int) as u64) {
                Err(e) => (Err(e), st2, regs),
                Ok(st3) => returning(st3, regs, address),
            }
        } else {
            returning(st2, regs, address)
        },
    }
}

pub open spec fn compare_call(st: MemState, regs: Seq<u64>, name: Seq<char>) -> DispatchOutcome {
    let left = match c_string_spec(st.0, regs[0]) {
        Some(b) => b,
        None => Seq::empty(),
    };
    let right = match c_string_spec(st.0, regs[1]) {
        Some(b) => b,
        None => Seq::empty(),
    };
    let limit = if name == "strncmp"@ { (regs[2] as usize) as int } else { usize::MAX as int };
    returning(st, regs, sign_extend(compare_c_strings(left, right, limit)))
}

pub open spec fn memory_compare_call(st: MemState, regs: Seq<u64>) -> DispatchOutcome {
    let size = (regs[2] as usize) as u64;
    match read_bytes_spec(st.0, regs[0], size) {
        Err(e) => (Err(e), st, regs),
        Ok(left) => match read_bytes_spec(st.0, regs[1], size) {
            Err(e) => (Err(e), st, regs),
            Ok(right) => returning(st, regs, sign_extend(compare_bytes(left, right))),
        },
    }
}

/// What calling the host function `symbol` does, with the guest registers
/// `regs` and guest memory `st`.
pub open spec fn dispatch_spec(st: MemState, regs: Seq<u64>, symbol: Seq<char>) -> DispatchOutcome {
    let name = strip_underscores(symbol);
    if is_allocator_name(name) {
        alloc_call(st, regs, name)
    } else if is_release_name(name) {
        returning(st, regs, 0)
    } else if is_realloc_name(name) {
        realloc_call(st, regs)
    } else if is_copy_name(name) {
        match copy_state(st, regs[0], regs[1], regs[2]) {
            Err(e) => (Err(e), st, regs),
            Ok(st2) => returning(st2, regs, regs[0]),
        }
    } else if is_fill_name(name) {
        let size = if name == "bzero"@ { regs[1] } else { regs[2] };
        let value = if name == "bzero"@ { 0u8 } else { regs[1] as u8 };
        match fill_state(st, regs[0], value, size) {
            Err(e) => (Err(e), st, regs),
            Ok(st2) => returning(st2, regs, regs[0]),
        }
    } else if name == "strlen"@ {
        match cstr_len_spec(st.0, regs[0], C_STRING_LIMIT) {
            Err(e) => (Err(e), st, regs),
            Ok(n) => returning(st, regs, n),
        }
    } else if is_compare_name(name) {
        compare_call(st, regs, name)
    } else if name == "memcmp"@ {
        memory_compare_call(st, regs)
    } else if is_retain_name(name) {
        returning(st, regs, regs[0])
    } else if is_message_name(name) || is_class_name(name) {
        returning(st, regs, 0)
    } else if is_selector_name(name) {
        returning(st, regs, regs[0])
    } else if name == "objc_autoreleasePoolPush"@ {
        match alloc_state(st, 8) {
            Err(e) => (Err(e), st, regs),
            Ok((st2, address)) => returning(st2, regs, address),
        }
    } else if is_pool_pop_name(name) || is_setup_name(name) || is_log_name(name)
        || name == "__CFConstantStringClassReference"@ {
        returning(st, regs, 0)
    } else if (c_string_spec(st.0, regs[0]) matches Some(b) && ascii_eq(b, "NSConcreteGlobalBlock"@)) || (
    c_string_spec(st.0, regs[0]) matches Some(b) && ascii_eq(b, "NSConcreteStackBlock"@)) {
        returning(st, regs, 0)
    } else {
        (Ok(false), st, regs)
    }
}

/// Whether `name` is the text `lit`.
fn name_is(name: &[char], lit: &str) -> (r: bool)
    ensures
        r == (name@ == lit@),
{
    let l = str_chars(lit);
    chars_eq(name, l.as_slice())
}

fn is_allocator_name_exec(name: &[char]) -> (r: bool)
    ensures
        r == is_allocator_name(name@),
{
    name_is(name, "malloc") || name_is(name, "calloc") || name_is(name, "valloc") || name_is(name, "posix_memalign")
}

fn is_release_name_exec(name: &[char]) -> (r: bool)
    ensures
        r == is_release_name(name@),
{
    name_is(name, "free") || name_is(name, "malloc_zone_free") || name_is(name, "objc_release") || name_is(name, "objc_storeStrong")
}

fn is_realloc_name_exec(name: &[char]) -> (r: bool)
    ensures
        r == is_realloc_name(name@),
{
    name_is(name, "realloc") || name_is(name, "malloc_zone_realloc")
}

fn is_copy_name_exec(name: &[char]) -> (r: bool)
    ensures
        r == is_copy_name(name@),
{
    name_is(name, "memcpy") || name_is(name, "memmove") || name_is(name, "__memcpy_chk") || name_is(name, "__memmove_chk")
}

fn is_fill_name_exec(name: &[char]) -> (r: bool)
    ensures
        r == is_fill_name(name@),
{
    name_is(name, "memset") || name_is(name, "bzero") || name_is(name, "__memset_chk")
}

fn is_compare_name_exec(name: &[char]) -> (r: bool)
    ensures
        r == is_compare_name(name@),
{
    name_is(name, "strcmp") || name_is(name, "strncmp")
}

fn is_retain_name_exec(name: &[char]) -> (r: bool)
    ensures
        r == is_retain_name(name@),
{
    name_is(name, "objc_retain") || name_is(name, "objc_retainAutoreleasedReturnValue") || name_is(name, "objc_retainAutoreleaseReturnValue") || name_is(name, "objc_autorelease") || name_is(name, "objc_autoreleaseReturnValue") || name_is(name, "objc_unsafeClaimAutoreleasedReturnValue") || name_is(name, "objc_retainAutorelease") || name_is(name, "objc_retainBlock")
}

fn is_message_name_exec(name: &[char]) -> (r: bool)
    ensures
        r == is_message_name(name@),
{
    name_is(name, "objc_msgSend") || name_is(name, "objc_msgSendSuper2") || name_is(name, "objc_msgSend_stret") || name_is(name, "objc_msgSendSuper2_stret")
}

fn is_class_name_exec(name: &[char]) -> (r: bool)
    ensures
        r == is_class_name(name@),
{
    name_is(name, "objc_getClass") || name_is(name, "objc_getRequiredClass") || name_is(name, "objc_lookUpClass")
}

fn is_selector_name_exec(name: &[char]) -> (r: bool)
    ensures
        r == is_selector_name(name@),
{
    name_is(name, "sel_registerName") || name_is(name, "sel_getUid")
}

fn is_pool_pop_name_exec(name: &[char]) -> (r: bool)
    ensures
        r == is_pool_pop_name(name@),
{
    name_is(name, "objc_autoreleasePoolPop") || name_is(name, "objc_exception_throw") || name_is(name, "objc_begin_catch") || name_is(name, "objc_end_catch")
}

fn is_setup_name_exec(name: &[char]) -> (r: bool)
    ensures
        r == is_setup_name(name@),
{
    name_is(name, "__cxa_atexit") || name_is(name, "atexit") || name_is(name, "pthread_mutex_lock") || name_is(name, "pthread_mutex_unlock") || name_is(name, "pthread_mutex_init") || name_is(name, "pthread_mutex_destroy")
}

fn is_log_name_exec(name: &[char]) -> (r: bool)
    ensures
        r == is_log_name(name@),
{
    name_is(name, "NSLog") || name_is(name, "NSLogv") || name_is(name, "os_log") || name_is(name, "os_logv")
}

/// `symbol` without its leading underscores.
fn name(symbol: &str) -> (r: Vec<char>)
    ensures
        r@ == strip_underscores(symbol@),
{
    let chars = str_chars(symbol);
    let mut k: usize = 0;
    assert(chars@.subrange(0, chars@.len() as int) =~= chars@);
    while k < chars.len() && chars[k] == '_'
        invariant
            k <= chars@.len(),
            strip_underscores(chars@) == strip_underscores(chars@.subrange(k as int, chars@.len() as int)),
        decreases chars@.len() - k,
    {
        assert(chars@.subrange(k as int, chars@.len() as int).drop_first() =~= chars@.subrange(k + 1, chars@.len() as int));
        k = k + 1;
    }
    assert(chars@.subrange(0, chars@.len() as int) =~= chars@);
    crate::text::copy_range(chars.as_slice(), k, chars.len())
}

/// Sets the return register x0.
fn return_value(context: &mut A64Context, value: u64)
    ensures
        final(context).regs@ == old(context).regs@.update(0, value),
        final(context).sp == old(context).sp,
        final(context).pc == old(context).pc,
{
    context.regs[0] = value;
}

/// The C string at `address`, if it can be read within the limit.
fn c_string(mem: &Mem64, address: u64) -> (r: Option<Vec<u8>>)
    requires
        mem.wf(),
    ensures
        match r {
            Some(b) => c_string_spec(mem.regions(), address) == Some(b@),
            None => c_string_spec(mem.regions(), address) is None,
        },
        r matches Some(b) ==> b@.len() < C_STRING_LIMIT,
{
    let length = match mem.cstr_len(address, C_STRING_LIMIT) {
        Ok(n) => n,
        Err(_) => return None,
    };
    proof {
        crate::mem64_laws::law_cstr_len(mem.regions(), address, C_STRING_LIMIT);
        if length <= usize::MAX && crate::mem64::access_error(mem.regions(), address as int, length as int) is None {
            crate::mem64::lemma_access_within(mem.regions(), address as int, length as int);
        }
    }
    match mem.read_bytes(address, length) {
        Ok(b) => Some(b),
        Err(_) => None,
    }
}

/// Whether `bytes` are the ASCII encoding of `text`.
fn ascii_eq_exec(bytes: &[u8], text: &[char]) -> (r: bool)
    ensures
        r == ascii_eq(bytes@, text@),
{
    if bytes.len() != text.len() {
        return false;
    }
    let mut k: usize = 0;
    while k < bytes.len()
        invariant
            bytes@.len() == text@.len(),
            k <= bytes@.len(),
            forall|i: int| 0 <= i < k ==> bytes@[i] as u32 == #[trigger] text@[i] as u32,
        decreases bytes@.len() - k,
    {
        if bytes[k] as u32 != text[k] as u32 {
            return false;
        }
        k = k + 1;
    }
    true
}

/// Whether the C string at `address` is the ASCII text `value`.
fn c_string_eq(mem: &Mem64, address: u64, value: &str) -> (r: bool)
    requires
        mem.wf(),
    ensures
        r == (c_string_spec(mem.regions(), address) matches Some(b) && ascii_eq(b, value@)),
{
    let text = str_chars(value);
    match c_string(mem, address) {
        Some(b) => ascii_eq_exec(b.as_slice(), text.as_slice()),
        None => false,
    }
}

/// First index in `[0, n)` where the bytes differ.
fn first_difference_exec(left: &[u8], right: &[u8], n: usize) -> (r: Option<usize>)
    requires
        n <= left@.len(),
        n <= right@.len(),
    ensures
        match r {
            Some(i) => first_difference(left@, right@, 0, n as int) == Some(i as int) && i < n,
            None => first_difference(left@, right@, 0, n as int) is None,
        },
{
    let mut i: usize = 0;
    while i < n
        invariant
            i <= n <= left@.len(),
            n <= right@.len(),
            first_difference(left@, right@, 0, n as int) == first_difference(left@, right@, i as int, n as int),
        decreases n - i,
    {
        if left[i] != right[i] {
            return Some(i);
        }
        i = i + 1;
    }
    None
}

/// The comparison result of two strings (see [`compare_c_strings`]).
fn compare_strings(left: &[u8], right: &[u8], limit: usize) -> (r: i32)
    requires
        left@.len() < C_STRING_LIMIT,
        right@.len() < C_STRING_LIMIT,
    ensures
        r == compare_c_strings(left@, right@, limit as int),
{
    let shorter = if left.len() < right.len() { left.len() } else { right.len() };
    let n = if shorter < limit { shorter } else { limit };
    match first_difference_exec(left, right, n) {
        Some(i) => (left[i] as i32) - (right[i] as i32),
        None => {
            let left_len = if left.len() < limit { left.len() } else { limit };
            let right_len = if right.len() < limit { right.len() } else { limit };
            (left_len as i32) - (right_len as i32)
        },
    }
}

/// A signed 32-bit result as the 64-bit register holds it.
fn widen(v: i32) -> (r: u64)
    ensures
        r == sign_extend(v as int),
{
    if v < 0 {
        let magnitude = (0i64 - v as i64) as u64;
        u64::MAX - magnitude + 1
    } else {
        v as u64
    }
}

/// The view of a dispatch result.
pub open spec fn string_result(r: Result<bool, String>) -> Result<bool, Seq<char>> {
    match r {
        Ok(b) => Ok(b),
        Err(e) => Err(e@),
    }
}

/// Whether a call that returned `r` left `mem` and `context` as `expected`
/// says.
pub open spec fn outcome_is(r: Result<bool, String>, mem: &Mem64, context: &A64Context, expected: DispatchOutcome) -> bool {
    &&& string_result(r) == expected.0
    &&& state_of(mem) == expected.1
    &&& context.regs@ == expected.2
}

/// `malloc`, `calloc`, `valloc` and `posix_memalign`.
fn call_allocator(mem: &mut Mem64, context: &mut A64Context, name: &[char]) -> (r: Result<bool, String>)
    requires
        old(mem).wf(),
    ensures
        final(mem).wf(),
        final(context).sp == old(context).sp,
        final(context).pc == old(context).pc,
        outcome_is(r, final(mem), final(context), alloc_call(state_of(old(mem)), old(context).regs@, name@)),
{
    let is_posix_memalign = name_is(name, "posix_memalign");
    let size = if name_is(name, "calloc") {
        match context.regs[0].checked_mul(context.regs[1]) {
            Some(size) => size,
            None => return Err(CALLOC_OVERFLOWS.to_owned()),
        }
    } else if is_posix_memalign {
        context.regs[2]
    } else {
        context.regs[0]
    };
    let address = match mem.alloc_zeroed(size) {
        Ok(address) => address,
        Err(e) => return Err(e.to_owned()),
    };
    if is_posix_memalign {
        if let Err(e) = mem.write_u64(context.regs[0], address) {
            return Err(e.to_owned());
        }
        return_value(context, 0);
    } else {
        return_value(context, address);
    }
    Ok(true)
}

/// `realloc` and `malloc_zone_realloc`: a new allocation holding as much of
/// the old one as fits.
fn call_realloc(mem: &mut Mem64, context: &mut A64Context) -> (r: Result<bool, String>)
    requires
        old(mem).wf(),
    ensures
        final(mem).wf(),
        final(context).sp == old(context).sp,
        final(context).pc == old(context).pc,
        outcome_is(r, final(mem), final(context), realloc_call(state_of(old(mem)), old(context).regs@)),
{
    let old = context.regs[0];
    let size = context.regs[1];
    let address = match mem.alloc_zeroed(size) {
        Ok(address) => address,
        Err(e) => return Err(e.to_owned()),
    };
    if old != 0 {
        if let Some(old_size) = mem.allocation_size(old) {
            let length = if old_size < size { old_size } else { size };
            if let Err(e) = mem.copy_bytes(address, old, length) {
                return Err(e.to_owned());
            }
        }
    }
    return_value(context, address);
    Ok(true)
}

/// `strcmp` and `strncmp`.
fn call_compare_strings(mem: &Mem64, context: &mut A64Context, name: &[char]) -> (r: Result<bool, String>)
    requires
        mem.wf(),
    ensures
        final(context).sp == old(context).sp,
        final(context).pc == old(context).pc,
        outcome_is(r, mem, final(context), compare_call(state_of(mem), old(context).regs@, name@)),
{
    let left = match c_string(mem, context.regs[0]) {
        Some(b) => b,
        None => Vec::new(),
    };
    let right = match c_string(mem, context.regs[1]) {
        Some(b) => b,
        None => Vec::new(),
    };
    let limit = if name_is(name, "strncmp") { context.regs[2] as usize } else { usize::MAX };
    let result = compare_strings(left.as_slice(), right.as_slice(), limit);
    return_value(context, widen(result));
    Ok(true)
}

/// `memcmp`.
fn call_compare_memory(mem: &Mem64, context: &mut A64Context) -> (r: Result<bool, String>)
    requires
        mem.wf(),
    ensures
        final(context).sp == old(context).sp,
        final(context).pc == old(context).pc,
        outcome_is(r, mem, final(context), memory_compare_call(state_of(mem), old(context).regs@)),
{
    let size = context.regs[2] as usize;
    let left = match mem.read_bytes(context.regs[0], size as u64) {
        Ok(b) => b,
        Err(e) => return Err(e.to_owned()),
    };
    let right = match mem.read_bytes(context.regs[1], size as u64) {
        Ok(b) => b,
        Err(e) => return Err(e.to_owned()),
    };
    proof {
        crate::mem64::lemma_access_within(mem.regions(), context.regs[0] as int, size as int);
        crate::mem64::lemma_access_within(mem.regions(), context.regs[1] as int, size as int);
    }
    let result: i32 = match first_difference_exec(left.as_slice(), right.as_slice(), size) {
        Some(i) => (left[i] as i32) - (right[i] as i32),
        None => 0,
    };
    return_value(context, widen(result));
    Ok(true)
}

/// Runs the host implementation of the imported function `symbol` (leading
/// underscores ignored) for the guest: arguments come from x0 to x2, the
/// result goes to x0. Returns whether `symbol` has an implementation here.
pub fn dispatch(mem: &mut Mem64, context: &mut A64Context, symbol: &str) -> (r: Result<bool, String>)
    requires
        old(mem).wf(),
    ensures
        final(mem).wf(),
        final(context).sp == old(context).sp,
        final(context).pc == old(context).pc,
        outcome_is(r, final(mem), final(context), dispatch_spec(state_of(old(mem)), old(context).regs@, symbol@)),
{
    let symbol = name(symbol);
    let name = symbol.as_slice();
    if is_allocator_name_exec(name) {
        call_allocator(mem, context, name)
    } else if is_release_name_exec(name) {
        return_value(context, 0);
        Ok(true)
    } else if is_realloc_name_exec(name) {
        call_realloc(mem, context)
    } else if is_copy_name_exec(name) {
        let size = context.regs[2];
        if let Err(e) = mem.copy_bytes(context.regs[0], context.regs[1], size) {
            return Err(e.to_owned());
        }
        let destination = context.regs[0];
        return_value(context, destination);
        Ok(true)
    } else if is_fill_name_exec(name) {
        let is_bzero = name_is(name, "bzero");
        let size = if is_bzero { context.regs[1] } else { context.regs[2] };
        let value = if is_bzero { 0 } else { context.regs[1] as u8 };
        if let Err(e) = mem.fill_bytes(context.regs[0], value, size) {
            return Err(e.to_owned());
        }
        let destination = context.regs[0];
        return_value(context, destination);
        Ok(true)
    } else if name_is(name, "strlen") {
        let length = match mem.cstr_len(context.regs[0], C_STRING_LIMIT) {
            Ok(n) => n,
            Err(e) => return Err(e.to_owned()),
        };
        return_value(context, length);
        Ok(true)
    } else if is_compare_name_exec(name) {
        call_compare_strings(mem, context, name)
    } else if name_is(name, "memcmp") {
        call_compare_memory(mem, context)
    } else if is_retain_name_exec(name) {
        let value = context.regs[0];
        return_value(context, value);
        Ok(true)
    } else if is_message_name_exec(name) || is_class_name_exec(name) {
        return_value(context, 0);
        Ok(true)
    } else if is_selector_name_exec(name) {
        let value = context.regs[0];
        return_value(context, value);
        Ok(true)
    } else if name_is(name, "objc_autoreleasePoolPush") {
        let address = match mem.alloc_zeroed(8) {
            Ok(address) => address,
            Err(e) => return Err(e.to_owned()),
        };
        return_value(context, address);
        Ok(true)
    } else if is_pool_pop_name_exec(name) || is_setup_name_exec(name) || is_log_name_exec(name) || name_is(
        name,
        "__CFConstantStringClassReference",
    ) {
        return_value(context, 0);
        Ok(true)
    } else if c_string_eq(mem, context.regs[0], "NSConcreteGlobalBlock") || c_string_eq(
        mem,
        context.regs[0],
        "NSConcreteStackBlock",
    ) {
        return_value(context, 0);
        Ok(true)
    } else {
        Ok(false)
    }
}

} // verus!
