//! Checks on the bytes of an object file and of its dyld opcode streams
//! that the loader makes before it hands them to `mach_object`: the
//! crate's parser does arithmetic that overflows on some malformed input,
//! and these checks refuse such input first.

use vstd::prelude::*;

verus! {

/// The `u32` at `i` of `b`, little-endian or big-endian.
pub open spec fn u32_at(b: Seq<u8>, i: int, little: bool) -> u32 {
    if little {
        (b[i] as int + b[i + 1] as int * 0x100 + b[i + 2] as int * 0x1_0000 + b[i + 3] as int * 0x100_0000) as u32
    } else {
        (b[i + 3] as int + b[i + 2] as int * 0x100 + b[i + 1] as int * 0x1_0000 + b[i] as int * 0x100_0000) as u32
    }
}

/// The big-endian `u64` at `i` of `b`.
pub open spec fn u64_be_at(b: Seq<u8>, i: int) -> u64 {
    (u32_at(b, i, false) as int * 0x1_0000_0000 + u32_at(b, i + 4, false) as int) as u64
}

pub fn u32_at_exec(b: &[u8], i: usize, little: bool) -> (r: u32)
    requires
        i + 4 <= b@.len(),
    ensures
        r == u32_at(b@, i as int, little),
{
    let _n = b.len();
    let (b0, b1, b2, b3) = if little {
        (b[i] as u32, b[i + 1] as u32, b[i + 2] as u32, b[i + 3] as u32)
    } else {
        (b[i + 3] as u32, b[i + 2] as u32, b[i + 1] as u32, b[i] as u32)
    };
    b0 + b1 * 0x100 + b2 * 0x1_0000 + b3 * 0x100_0000
}

pub fn u64_be_at_exec(b: &[u8], i: usize) -> (r: u64)
    requires
        i + 8 <= b@.len(),
    ensures
        r == u64_be_at(b@, i as int),
{
    let _n = b.len();
    let hi = u32_at_exec(b, i, false) as u64;
    let lo = u32_at_exec(b, i + 4, false) as u64;
    hi * 0x1_0000_0000 + lo
}

/// `LC_RPATH`: its path offset must lie inside the command.
pub const LC_RPATH: u32 = 0x8000_001c;

/// The least name offset a load command that names a library, a linker
/// or an umbrella must have for `mach_object` to skip to the name: 24 for
/// the dylib commands, 12 for the `LcString` commands, 20 for the fixed VM
/// library commands; 0 for every other command.
pub open spec fn name_offset_floor(cmd: u32) -> u32 {
    if cmd == 0xc || cmd == 0xd || cmd == 0x8000_0018 || cmd == 0x8000_001f || cmd == 0x20 || cmd == 0x8000_0023 {
        24
    } else if cmd == 0xe || cmd == 0xf || cmd == 0x27 || cmd == 0x12 || cmd == 0x13 || cmd == 0x14 || cmd == 0x15 {
        12
    } else if cmd == 0x6 || cmd == 0x7 {
        20
    } else {
        0
    }
}

/// Whether the parser reads a name offset right after the command's size.
pub open spec fn reads_name_offset(cmd: u32) -> bool {
    name_offset_floor(cmd) > 0 || cmd == LC_RPATH
}

/// Whether a command's name offset lets the parser skip to the name.
pub open spec fn name_offset_ok(cmd: u32, offset: u32, size: u32) -> bool {
    if cmd == LC_RPATH {
        offset <= size
    } else {
        offset >= name_offset_floor(cmd)
    }
}

/// The `left` load commands from `pos` on: none that the parser reaches
/// has a name offset it would subtract past zero. The walk stops where the
/// parser stops for certain (a command past the end, or shorter than its
/// header); a command that the parser would refuse for another reason is
/// walked past, which only asks more.
pub open spec fn commands_safe(b: Seq<u8>, little: bool, pos: int, left: int) -> bool
    decreases left,
{
    if left <= 0 || pos < 0 || pos + 8 > b.len() {
        true
    } else {
        let cmd = u32_at(b, pos, little);
        let size = u32_at(b, pos + 4, little);
        if size < 8 || pos + size > b.len() {
            true
        } else if reads_name_offset(cmd) && pos + 12 > b.len() {
            true
        } else if reads_name_offset(cmd) && !name_offset_ok(cmd, u32_at(b, pos + 8, little), size) {
            false
        } else {
            commands_safe(b, little, pos + size, left - 1)
        }
    }
}

/// A thin Mach-O file in the byte order `little`, 64-bit or not.
pub open spec fn thin_safe(b: Seq<u8>, little: bool, is64: bool) -> bool {
    b.len() < 28 || commands_safe(b, little, if is64 { 32 } else { 28 }, u32_at(b, 16, little) as int)
}

/// The size of a fat header entry.
pub open spec fn fat_entry_size(is64: bool) -> int {
    if is64 {
        32
    } else {
        20
    }
}

/// `!<arch>\n`, the start of an archive.
pub open spec fn is_archive(b: Seq<u8>) -> bool {
    b.len() >= 8 && b.subrange(0, 8) == seq![0x21u8, 0x3cu8, 0x61u8, 0x72u8, 0x63u8, 0x68u8, 0x3eu8, 0x0au8]
}

/// The offset and size that fat header entry `k` gives its slice.
pub open spec fn slice_bounds(b: Seq<u8>, is64: bool, k: int) -> (int, int) {
    let e = 8 + k * fat_entry_size(is64);
    if is64 {
        (u64_be_at(b, e + 8) as int, u64_be_at(b, e + 16) as int)
    } else {
        (u32_at(b, e + 8, false) as int, u32_at(b, e + 12, false) as int)
    }
}

/// Whether the parser refuses a slice at `offset` of `size` bytes of `b`,
/// whose fat header ends at `start`, without parsing it.
pub open spec fn slice_refused(len: int, start: int, offset: int, size: int) -> bool {
    offset < start || offset + size > usize::MAX || offset >= len || size == 0 || offset + size > len
}

/// The slices of a fat file from entry `k` on, `n` entries in all: each
/// that the parser reaches is safe to parse.
pub open spec fn slices_safe(b: Seq<u8>, little: bool, is64: bool, n: int, k: int) -> bool
    decreases b.len(), n - k,
{
    if k < 0 || k >= n || n > u32::MAX {
        true
    } else {
        let (offset, size) = slice_bounds(b, is64, k);
        if slice_refused(b.len() as int, 8 + n * fat_entry_size(is64), offset, size) {
            true
        } else {
            object_safe(b.subrange(offset, offset + size), little) && slices_safe(b, little, is64, n, k + 1)
        }
    }
}

/// Whether `mach_object::OFile::parse` can take `b` on a host of byte
/// order `little` without its arithmetic overflowing: a thin file whose
/// load commands are safe, a fat file whose slices are, or anything else
/// but an archive (whose members the parser would parse too).
pub open spec fn object_safe(b: Seq<u8>, little: bool) -> bool
    decreases b.len(), 0x1_0000_0000int,
{
    if b.len() < 4 {
        true
    } else {
        let m = u32_at(b, 0, little);
        if m == 0xfeed_face {
            thin_safe(b, true, false)
        } else if m == 0xcefa_edfe {
            thin_safe(b, false, false)
        } else if m == 0xfeed_facf {
            thin_safe(b, true, true)
        } else if m == 0xcffa_edfe {
            thin_safe(b, false, true)
        } else if m == 0xcafe_babe || m == 0xbeba_feca || m == 0xcafe_babf || m == 0xbfba_feca {
            let is64 = m == 0xcafe_babf || m == 0xbfba_feca;
            if b.len() < 8 {
                true
            } else {
                let n = u32_at(b, 4, false) as int;
                if 8 + n * fat_entry_size(is64) > b.len() {
                    true
                } else {
                    slices_safe(b, little, is64, n, 0)
                }
            }
        } else {
            !is_archive(b)
        }
    }
}

/// The parse is safe and the host's `usize` is 64 bits wide, the width
/// the parser's offsets are read at.
pub open spec fn parse_safe(b: Seq<u8>, little: bool) -> bool {
    usize::BITS == 64 && object_safe(b, little)
}

fn commands_safe_exec(b: &[u8], little: bool, start: usize, count: u32) -> (r: bool)
    ensures
        r == commands_safe(b@, little, start as int, count as int),
{
    let n = b.len();
    let mut pos = start;
    let mut left = count;
    while left > 0
        invariant
            n == b@.len(),
            commands_safe(b@, little, pos as int, left as int) == commands_safe(b@, little, start as int, count as int),
        decreases left,
    {
        if pos > n || n - pos < 8 {
            return true;
        }
        let cmd = u32_at_exec(b, pos, little);
        let size = u32_at_exec(b, pos + 4, little);
        if size < 8 || size as usize > n - pos {
            return true;
        }
        let floor: u32 = if cmd == 0xc || cmd == 0xd || cmd == 0x8000_0018 || cmd == 0x8000_001f || cmd == 0x20 || cmd
            == 0x8000_0023 {
            24
        } else if cmd == 0xe || cmd == 0xf || cmd == 0x27 || cmd == 0x12 || cmd == 0x13 || cmd == 0x14 || cmd == 0x15 {
            12
        } else if cmd == 0x6 || cmd == 0x7 {
            20
        } else {
            0
        };
        assert(floor == name_offset_floor(cmd));
        if floor > 0 || cmd == LC_RPATH {
            if n - pos < 12 {
                return true;
            }
            let offset = u32_at_exec(b, pos + 8, little);
            let ok = if cmd == LC_RPATH {
                offset <= size
            } else {
                offset >= floor
            };
            if !ok {
                return false;
            }
        }
        pos = pos + size as usize;
        left = left - 1;
    }
    true
}

fn thin_safe_exec(b: &[u8], little: bool, is64: bool) -> (r: bool)
    ensures
        r == thin_safe(b@, little, is64),
{
    if b.len() < 28 {
        return true;
    }
    let count = u32_at_exec(b, 16, little);
    commands_safe_exec(b, little, if is64 { 32 } else { 28 }, count)
}

/// Whether `b` starts an archive (see [`is_archive`]).
pub fn is_archive_exec(b: &[u8]) -> (r: bool)
    ensures
        r == is_archive(b@),
{
    if b.len() < 8 {
        return false;
    }
    let r = b[0] == 0x21 && b[1] == 0x3c && b[2] == 0x61 && b[3] == 0x72 && b[4] == 0x63 && b[5] == 0x68 && b[6] == 0x3e
        && b[7] == 0x0a;
    proof {
        let want = seq![0x21u8, 0x3cu8, 0x61u8, 0x72u8, 0x63u8, 0x68u8, 0x3eu8, 0x0au8];
        if r {
            assert(b@.subrange(0, 8) =~= want);
        } else {
            if b@.subrange(0, 8) == want {
                assert(b@.subrange(0, 8)[0] == b@[0]);
                assert(b@.subrange(0, 8)[1] == b@[1]);
                assert(b@.subrange(0, 8)[2] == b@[2]);
                assert(b@.subrange(0, 8)[3] == b@[3]);
                assert(b@.subrange(0, 8)[4] == b@[4]);
                assert(b@.subrange(0, 8)[5] == b@[5]);
                assert(b@.subrange(0, 8)[6] == b@[6]);
                assert(b@.subrange(0, 8)[7] == b@[7]);
            }
        }
    }
    r
}

/// Whether `mach_object::OFile::parse` can take `b` (see
/// [`object_safe`]).
pub fn object_safe_exec(b: &[u8], little: bool) -> (r: bool)
    ensures
        r == object_safe(b@, little),
    decreases b@.len(), 1int,
{
    let n = b.len();
    if n < 4 {
        return true;
    }
    let m = u32_at_exec(b, 0, little);
    if m == 0xfeed_face {
        thin_safe_exec(b, true, false)
    } else if m == 0xcefa_edfe {
        thin_safe_exec(b, false, false)
    } else if m == 0xfeed_facf {
        thin_safe_exec(b, true, true)
    } else if m == 0xcffa_edfe {
        thin_safe_exec(b, false, true)
    } else if m == 0xcafe_babe || m == 0xbeba_feca || m == 0xcafe_babf || m == 0xbfba_feca {
        let is64 = m == 0xcafe_babf || m == 0xbfba_feca;
        if n < 8 {
            return true;
        }
        let count = u32_at_exec(b, 4, false);
        let entry: u64 = if is64 { 32 } else { 20 };
        let start: u64 = 8 + count as u64 * entry;
        if start > n as u64 {
            return true;
        }
        let mut k: u32 = 0;
        assert(object_safe(b@, little) == slices_safe(b@, little, is64, count as int, 0));
        while k < count
            invariant
                n == b@.len(),
                object_safe(b@, little) == slices_safe(b@, little, is64, count as int, 0),
                k <= count,
                entry == fat_entry_size(is64),
                start == 8 + count * fat_entry_size(is64),
                start <= n,
                slices_safe(b@, little, is64, count as int, 0) == slices_safe(b@, little, is64, count as int, k as int),
            decreases count - k,
        {
            match slice_step(b, little, is64, count, k, start) {
                Some(r) => return r,
                None => {},
            }
            k = k + 1;
        }
        true
    } else {
        !is_archive_exec(b)
    }
}

proof fn lemma_slices_unfold(b: Seq<u8>, little: bool, is64: bool, n: int, k: int)
    requires
        0 <= k < n <= u32::MAX,
    ensures
        slices_safe(b, little, is64, n, k) == ({
            let (offset, size) = slice_bounds(b, is64, k);
            if slice_refused(b.len() as int, 8 + n * fat_entry_size(is64), offset, size) {
                true
            } else {
                object_safe(b.subrange(offset, offset + size), little) && slices_safe(b, little, is64, n, k + 1)
            }
        }),
{
}

/// One entry of a fat header: the answer where it settles whether the
/// slices from entry `k` on are safe, `None` where the rest decides.
fn slice_step(b: &[u8], little: bool, is64: bool, count: u32, k: u32, start: u64) -> (r: Option<bool>)
    requires
        k < count,
        start == 8 + count * fat_entry_size(is64),
        start <= b@.len(),
    ensures
        match r {
            Some(v) => v == slices_safe(b@, little, is64, count as int, k as int),
            None => slices_safe(b@, little, is64, count as int, k as int) == slices_safe(
                b@,
                little,
                is64,
                count as int,
                k + 1,
            ),
        },
    decreases b@.len(), 0int,
{
    let n = b.len();
    let entry: u64 = if is64 { 32 } else { 20 };
    let e = (8 + k as u64 * entry) as usize;
    assert(e + fat_entry_size(is64) <= start) by (nonlinear_arith)
        requires
            e == 8 + k * fat_entry_size(is64),
            start == 8 + count * fat_entry_size(is64),
            k < count,
            fat_entry_size(is64) > 0,
    ;
    let offset: u64 = if is64 {
        u64_be_at_exec(b, e + 8)
    } else {
        u32_at_exec(b, e + 8, false) as u64
    };
    let size: u64 = if is64 {
        u64_be_at_exec(b, e + 16)
    } else {
        u32_at_exec(b, e + 12, false) as u64
    };
    assert(slice_bounds(b@, is64, k as int) == (offset as int, size as int));
    if offset < start || size > u64::MAX - offset || offset + size > usize::MAX as u64 || offset >= n as u64 || size == 0
        || offset + size > n as u64 {
        return Some(true);
    }
    let content = vstd::slice::slice_subrange(b, offset as usize, (offset + size) as usize);
    assert(!slice_refused(n as int, start as int, offset as int, size as int));
    proof {
        lemma_slices_unfold(b@, little, is64, count as int, k as int);
    }
    assert(slices_safe(b@, little, is64, count as int, k as int) == (object_safe(
        b@.subrange(offset as int, offset + size),
        little,
    ) && slices_safe(b@, little, is64, count as int, k + 1)));
    if !object_safe_exec(content, little) {
        Some(false)
    } else {
        None
    }
}

/// The most entries a dyld opcode stream may list: the crate expands
/// every repeat count into that many entries.
pub const MAX_STREAM_ENTRIES: u64 = 0x100_0000;

/// Whether `x` fits a 64-bit `isize`.
pub open spec fn in_isize(x: int) -> bool {
    i64::MIN <= x <= i64::MAX
}

/// A 64-bit `usize` taken as an `isize`, as `as` does.
pub open spec fn signed(v: u64) -> int {
    if v > i64::MAX {
        v - 0x1_0000_0000_0000_0000int
    } else {
        v as int
    }
}

/// The ULEB128 number from `pos`, as the crate reads it from a byte
/// iterator: its value and where reading stopped; it ends with the stream,
/// and is refused once it has run past 63 bits.
pub open spec fn uleb_from(p: Seq<u8>, pos: int, v: u64, bits: u64) -> Option<(u64, int)>
    decreases p.len() - pos,
{
    if pos < 0 || pos >= p.len() {
        Some((v, pos))
    } else if bits > 63 {
        None
    } else {
        let b = p[pos];
        let v2 = v | (((b & 0x7f) as u64) << bits);
        if b & 0x80 == 0 {
            Some((v2, pos + 1))
        } else {
            uleb_from(p, pos + 1, v2, (bits + 7) as u64)
        }
    }
}

/// Where the NUL-terminated name from `pos` ends: after its NUL, or at the
/// end of the stream.
pub open spec fn after_cstr(p: Seq<u8>, pos: int) -> int
    decreases p.len() - pos,
{
    if pos < 0 || pos >= p.len() {
        p.len() as int
    } else if p[pos] == 0 {
        pos + 1
    } else {
        after_cstr(p, pos + 1)
    }
}

pub proof fn lemma_uleb_moves(p: Seq<u8>, pos: int, v: u64, bits: u64)
    requires
        0 <= pos <= p.len(),
    ensures
        uleb_from(p, pos, v, bits) matches Some((_, q)) ==> pos <= q <= p.len() && (pos < p.len() ==> pos < q),
    decreases p.len() - pos,
{
    if pos < p.len() && bits <= 63 && p[pos] & 0x80 != 0 {
        lemma_uleb_moves(p, pos + 1, v | (((p[pos] & 0x7f) as u64) << bits), (bits + 7) as u64);
    }
}

pub proof fn lemma_cstr_moves(p: Seq<u8>, pos: int)
    requires
        0 <= pos <= p.len(),
    ensures
        pos <= after_cstr(p, pos) <= p.len(),
        pos < p.len() ==> pos < after_cstr(p, pos),
    decreases p.len() - pos,
{
    if pos < p.len() && p[pos] != 0 {
        lemma_cstr_moves(p, pos + 1);
    }
}

/// A repeat of `times` entries, each moving the offset by `step`: the
/// entries stay within the limit and the offset within `isize`.
pub open spec fn repeat_ok(off: int, count: int, times: int, step: int) -> bool {
    count + times <= MAX_STREAM_ENTRIES && (times == 0 || in_isize(off + times * step))
}

/// One entry, then the offset moved by `offset + ptr` (the sum taken
/// first, as an `isize`).
pub open spec fn add_entry_ok(off: int, count: int, offset: int, ptr: int) -> bool {
    count + 1 <= MAX_STREAM_ENTRIES && in_isize(offset + ptr) && in_isize(off + offset + ptr)
}

/// The rebase opcodes from `pos` on, with the current offset `off` and
/// `count` entries so far, as `mach_object::Rebase` decodes them: none
/// makes the offset leave `isize`, a pointer-plus-skip sum leave `usize`,
/// or the entries pass [`MAX_STREAM_ENTRIES`]. The walk ends where the
/// decoder ends: at `DONE`, an unknown opcode or type, a refused number,
/// or the stream's end.
pub open spec fn rebase_ok(p: Seq<u8>, ptr: int, pos: int, off: int, count: int) -> bool
    decreases p.len() - pos,
{
    if pos < 0 || pos >= p.len() {
        true
    } else {
        let op = p[pos] & 0xf0;
        let imm = (p[pos] & 0x0f) as int;
        let next = pos + 1;
        if op == 0x00 {
            true
        } else if op == 0x10 {
            if 1 <= imm <= 3 {
                rebase_ok(p, ptr, next, off, count)
            } else {
                true
            }
        } else if op == 0x40 {
            in_isize(off + ptr * imm) && rebase_ok(p, ptr, next, off + ptr * imm, count)
        } else if op == 0x50 {
            repeat_ok(off, count, imm, ptr) && rebase_ok(p, ptr, next, off + imm * ptr, count + imm)
        } else if op == 0x20 || op == 0x30 || op == 0x60 || op == 0x70 || op == 0x80 {
            proof {
                lemma_uleb_moves(p, next, 0, 0);
            }
            match uleb_from(p, next, 0, 0) {
                None => true,
                Some((v, q)) => if op == 0x20 {
                    rebase_ok(p, ptr, q, signed(v), count)
                } else if op == 0x30 {
                    in_isize(off + signed(v)) && rebase_ok(p, ptr, q, off + signed(v), count)
                } else if op == 0x60 {
                    repeat_ok(off, count, v as int, ptr) && rebase_ok(p, ptr, q, off + v * ptr, count + v)
                } else if op == 0x70 {
                    add_entry_ok(off, count, signed(v), ptr) && rebase_ok(p, ptr, q, off + signed(v) + ptr, count + 1)
                } else {
                    proof {
                        lemma_uleb_moves(p, q, 0, 0);
                    }
                    match uleb_from(p, q, 0, 0) {
                        None => true,
                        Some((skip, r)) => {
                            let step = signed((skip + ptr) as u64);
                            skip + ptr <= u64::MAX && repeat_ok(off, count, v as int, step) && rebase_ok(
                                p,
                                ptr,
                                r,
                                off + v * step,
                                count + v,
                            )
                        },
                    }
                },
            }
        } else {
            true
        }
    }
}

/// Which bind stream is decoded: `mach_object::Bind`, `WeakBind` or
/// `LazyBind`.
pub enum BindKind {
    Bind,
    Weak,
    Lazy,
}

/// The bind opcodes from `pos` on, as `mach_object`'s decoder of kind
/// `kind` takes them, with the current offset `off` and `count` entries so
/// far: the same limits as [`rebase_ok`]. The walk ends where the decoder
/// ends: at `DONE` (except for lazy binds, whose `DONE` separates entries),
/// an opcode the kind does not take, an unknown opcode, type or special
/// library, a refused number, or the stream's end. A symbol name is walked
/// past even where it is not UTF-8 and the decoder would end there, which
/// only asks more.
pub open spec fn bind_ok(p: Seq<u8>, ptr: int, kind: BindKind, pos: int, off: int, count: int) -> bool
    decreases p.len() - pos,
{
    if pos < 0 || pos >= p.len() {
        true
    } else {
        let op = p[pos] & 0xf0;
        let imm = (p[pos] & 0x0f) as int;
        let next = pos + 1;
        let weak = kind is Weak;
        let lazy = kind is Lazy;
        if op == 0x00 {
            if lazy {
                bind_ok(p, ptr, kind, next, off, count)
            } else {
                true
            }
        } else if op == 0x10 {
            if weak {
                true
            } else {
                bind_ok(p, ptr, kind, next, off, count)
            }
        } else if op == 0x30 {
            if (imm == 0 || imm == 0xf || imm == 0xe) && !weak {
                bind_ok(p, ptr, kind, next, off, count)
            } else {
                true
            }
        } else if op == 0x40 {
            proof {
                lemma_cstr_moves(p, next);
            }
            bind_ok(p, ptr, kind, after_cstr(p, next), off, count)
        } else if op == 0x50 {
            if 1 <= imm <= 3 && !lazy {
                bind_ok(p, ptr, kind, next, off, count)
            } else {
                true
            }
        } else if op == 0x90 {
            count + 1 <= MAX_STREAM_ENTRIES && in_isize(off + ptr) && bind_ok(p, ptr, kind, next, off + ptr, count + 1)
        } else if op == 0xb0 {
            if lazy {
                true
            } else {
                add_entry_ok(off, count, ptr * imm, ptr) && bind_ok(p, ptr, kind, next, off + ptr * imm + ptr, count + 1)
            }
        } else if op == 0x20 || op == 0x60 || op == 0x70 || op == 0x80 || op == 0xa0 || op == 0xc0 {
            proof {
                lemma_uleb_moves(p, next, 0, 0);
            }
            match uleb_from(p, next, 0, 0) {
                None => true,
                Some((v, q)) => if op == 0x20 {
                    if weak {
                        true
                    } else {
                        bind_ok(p, ptr, kind, q, off, count)
                    }
                } else if op == 0x60 {
                    if lazy {
                        true
                    } else {
                        bind_ok(p, ptr, kind, q, off, count)
                    }
                } else if op == 0x70 {
                    bind_ok(p, ptr, kind, q, signed(v), count)
                } else if op == 0x80 {
                    in_isize(off + signed(v)) && bind_ok(p, ptr, kind, q, off + signed(v), count)
                } else if op == 0xa0 {
                    if lazy {
                        true
                    } else {
                        add_entry_ok(off, count, signed(v), ptr) && bind_ok(p, ptr, kind, q, off + signed(v) + ptr, count + 1)
                    }
                } else {
                    proof {
                        lemma_uleb_moves(p, q, 0, 0);
                    }
                    match uleb_from(p, q, 0, 0) {
                        None => true,
                        Some((skip, r)) => if lazy {
                            true
                        } else {
                            let step = signed((skip + ptr) as u64);
                            skip + ptr <= u64::MAX && repeat_ok(off, count, v as int, step) && bind_ok(
                                p,
                                ptr,
                                kind,
                                r,
                                off + v * step,
                                count + v,
                            )
                        },
                    }
                },
            }
        } else {
            true
        }
    }
}

/// The rebase stream `p` is safe for `mach_object::Rebase::parse` with
/// pointers of `ptr` bytes on this host.
pub open spec fn rebase_stream_safe(p: Seq<u8>, ptr: usize) -> bool {
    usize::BITS == 64 && ptr <= 0x100 && rebase_ok(p, ptr as int, 0, 0, 0)
}

/// The bind stream `p` is safe for `mach_object`'s decoder of kind
/// `kind` with pointers of `ptr` bytes on this host.
pub open spec fn bind_stream_safe(p: Seq<u8>, ptr: usize, kind: BindKind) -> bool {
    usize::BITS == 64 && ptr <= 0x100 && bind_ok(p, ptr as int, kind, 0, 0, 0)
}

fn uleb_exec(p: &[u8], pos: usize) -> (r: Option<(u64, usize)>)
    requires
        pos <= p@.len(),
    ensures
        match r {
            Some((v, q)) => uleb_from(p@, pos as int, 0, 0) == Some((v, q as int)),
            None => uleb_from(p@, pos as int, 0, 0) is None,
        },
{
    let n = p.len();
    let mut v: u64 = 0;
    let mut bits: u64 = 0;
    let mut i = pos;
    loop
        invariant
            n == p@.len(),
            pos <= i <= n,
            bits <= 70,
            uleb_from(p@, pos as int, 0, 0) == uleb_from(p@, i as int, v, bits),
        decreases n - i,
    {
        if i >= n {
            return Some((v, i));
        }
        if bits > 63 {
            return None;
        }
        let b = p[i];
        v = v | (((b & 0x7f) as u64) << bits);
        if b & 0x80 == 0 {
            return Some((v, i + 1));
        }
        bits = bits + 7;
        i = i + 1;
    }
}

fn after_cstr_exec(p: &[u8], pos: usize) -> (r: usize)
    requires
        pos <= p@.len(),
    ensures
        r == after_cstr(p@, pos as int),
{
    let n = p.len();
    let mut i = pos;
    while i < n && p[i] != 0
        invariant
            n == p@.len(),
            pos <= i <= n,
            after_cstr(p@, pos as int) == after_cstr(p@, i as int),
        decreases n - i,
    {
        i = i + 1;
    }
    if i < n {
        i + 1
    } else {
        n
    }
}

fn signed_exec(v: u64) -> (r: i128)
    ensures
        r == signed(v),
{
    if v > i64::MAX as u64 {
        v as i128 - 0x1_0000_0000_0000_0000i128
    } else {
        v as i128
    }
}

fn in_isize_exec(x: i128) -> (r: bool)
    ensures
        r == in_isize(x as int),
{
    i64::MIN as i128 <= x && x <= i64::MAX as i128
}

/// A repeat (see [`repeat_ok`]): the offset and count after it, where it
/// is allowed.
fn repeat_exec(off: i128, count: u64, times: u64, step: i128) -> (r: Option<(i128, u64)>)
    requires
        in_isize(off as int),
        count <= MAX_STREAM_ENTRIES,
        -0x1_0000_0000_0000_0000int <= step <= 0x1_0000_0000_0000_0000int,
    ensures
        match r {
            Some((o, c)) => repeat_ok(off as int, count as int, times as int, step as int) && o == off + times * step && c
                == count + times && in_isize(o as int) && c <= MAX_STREAM_ENTRIES,
            None => !repeat_ok(off as int, count as int, times as int, step as int),
        },
{
    if times > MAX_STREAM_ENTRIES - count {
        return None;
    }
    if times == 0 {
        assert(off + times * step == off) by (nonlinear_arith)
            requires
                times == 0,
        ;
        return Some((off, count));
    }
    assert(-0x1_0000_0000_0000_0000_0000_0000int <= times * step <= 0x1_0000_0000_0000_0000_0000_0000int) by (nonlinear_arith)
        requires
            0 < times <= MAX_STREAM_ENTRIES,
            -0x1_0000_0000_0000_0000int <= step <= 0x1_0000_0000_0000_0000int,
    ;
    let moved = off + times as i128 * step;
    if !in_isize_exec(moved) {
        return None;
    }
    Some((moved, count + times))
}

/// One entry and a move by `offset + ptr` (see [`add_entry_ok`]).
fn add_entry_exec(off: i128, count: u64, offset: i128, ptr: usize) -> (r: Option<(i128, u64)>)
    requires
        in_isize(off as int),
        count <= MAX_STREAM_ENTRIES,
        in_isize(offset as int),
        ptr <= 0x100,
    ensures
        match r {
            Some((o, c)) => add_entry_ok(off as int, count as int, offset as int, ptr as int) && o == off + offset + ptr
                && c == count + 1 && in_isize(o as int) && c <= MAX_STREAM_ENTRIES,
            None => !add_entry_ok(off as int, count as int, offset as int, ptr as int),
        },
{
    if count >= MAX_STREAM_ENTRIES {
        return None;
    }
    let sum = offset + ptr as i128;
    if !in_isize_exec(sum) {
        return None;
    }
    let moved = off + sum;
    if !in_isize_exec(moved) {
        return None;
    }
    Some((moved, count + 1))
}

/// Whether the rebase stream `p` is safe (see [`rebase_stream_safe`]).
pub fn rebase_stream_safe_exec(p: &[u8], ptr: usize) -> (r: bool)
    ensures
        r == rebase_stream_safe(p@, ptr),
{
    if usize::BITS != 64 || ptr > 0x100 {
        return false;
    }
    let n = p.len();
    let mut pos: usize = 0;
    let mut off: i128 = 0;
    let mut count: u64 = 0;
    loop
        invariant
            n == p@.len(),
            pos <= n,
            ptr <= 0x100,
            usize::BITS == 64,
            in_isize(off as int),
            count <= MAX_STREAM_ENTRIES,
            rebase_ok(p@, ptr as int, 0, 0, 0) == rebase_ok(p@, ptr as int, pos as int, off as int, count as int),
        decreases n - pos,
    {
        if pos >= n {
            return true;
        }
        let byte = p[pos];
        let op = byte & 0xf0;
        assert(byte & 0x0f <= 15) by (bit_vector);
        let imm = (byte & 0x0f) as u64;
        let next = pos + 1;
        if op == 0x00 {
            return true;
        } else if op == 0x10 {
            if !(1 <= imm && imm <= 3) {
                return true;
            }
            pos = next;
        } else if op == 0x40 {
            assert(0 <= ptr * imm <= 0x100 * 15) by (nonlinear_arith)
                requires
                    ptr <= 0x100,
                    imm <= 15,
            ;
            let moved = off + (ptr as i128) * (imm as i128);
            if !in_isize_exec(moved) {
                return false;
            }
            off = moved;
            pos = next;
        } else if op == 0x50 {
            match repeat_exec(off, count, imm, ptr as i128) {
                None => return false,
                Some((o, c)) => {
                    off = o;
                    count = c;
                },
            }
            pos = next;
        } else if op == 0x20 || op == 0x30 || op == 0x60 || op == 0x70 || op == 0x80 {
            proof {
                lemma_uleb_moves(p@, next as int, 0, 0);
            }
            let (v, q) = match uleb_exec(p, next) {
                None => return true,
                Some(read) => read,
            };
            if op == 0x20 {
                off = signed_exec(v);
            } else if op == 0x30 {
                let moved = off + signed_exec(v);
                if !in_isize_exec(moved) {
                    return false;
                }
                off = moved;
            } else if op == 0x60 {
                match repeat_exec(off, count, v, ptr as i128) {
                    None => return false,
                    Some((o, c)) => {
                        off = o;
                        count = c;
                    },
                }
            } else if op == 0x70 {
                match add_entry_exec(off, count, signed_exec(v), ptr) {
                    None => return false,
                    Some((o, c)) => {
                        off = o;
                        count = c;
                    },
                }
            } else {
                proof {
                    lemma_uleb_moves(p@, q as int, 0, 0);
                }
                let (skip, r) = match uleb_exec(p, q) {
                    None => return true,
                    Some(read) => read,
                };
                if skip > u64::MAX - ptr as u64 {
                    return false;
                }
                match repeat_exec(off, count, v, signed_exec(skip + ptr as u64)) {
                    None => return false,
                    Some((o, c)) => {
                        off = o;
                        count = c;
                    },
                }
                pos = r;
                continue;
            }
            pos = q;
        } else {
            return true;
        }
    }
}

/// Whether the bind stream `p` is safe for the decoder of kind `kind`
/// (see [`bind_stream_safe`]).
pub fn bind_stream_safe_exec(p: &[u8], ptr: usize, kind: BindKind) -> (r: bool)
    ensures
        r == bind_stream_safe(p@, ptr, kind),
{
    if usize::BITS != 64 || ptr > 0x100 {
        return false;
    }
    let weak = match kind {
        BindKind::Weak => true,
        _ => false,
    };
    let lazy = match kind {
        BindKind::Lazy => true,
        _ => false,
    };
    let n = p.len();
    let mut pos: usize = 0;
    let mut off: i128 = 0;
    let mut count: u64 = 0;
    loop
        invariant
            n == p@.len(),
            pos <= n,
            ptr <= 0x100,
            usize::BITS == 64,
            weak == (kind is Weak),
            lazy == (kind is Lazy),
            in_isize(off as int),
            count <= MAX_STREAM_ENTRIES,
            bind_ok(p@, ptr as int, kind, 0, 0, 0) == bind_ok(p@, ptr as int, kind, pos as int, off as int, count as int),
        decreases n - pos,
    {
        if pos >= n {
            return true;
        }
        let byte = p[pos];
        let op = byte & 0xf0;
        assert(byte & 0x0f <= 15) by (bit_vector);
        let imm = (byte & 0x0f) as u64;
        let next = pos + 1;
        if op == 0x00 {
            if !lazy {
                return true;
            }
            pos = next;
        } else if op == 0x10 {
            if weak {
                return true;
            }
            pos = next;
        } else if op == 0x30 {
            if !((imm == 0 || imm == 0xf || imm == 0xe) && !weak) {
                return true;
            }
            pos = next;
        } else if op == 0x40 {
            proof {
                lemma_cstr_moves(p@, next as int);
            }
            pos = after_cstr_exec(p, next);
        } else if op == 0x50 {
            if !(1 <= imm && imm <= 3 && !lazy) {
                return true;
            }
            pos = next;
        } else if op == 0x90 {
            if count >= MAX_STREAM_ENTRIES {
                return false;
            }
            let moved = off + ptr as i128;
            if !in_isize_exec(moved) {
                return false;
            }
            off = moved;
            count = count + 1;
            pos = next;
        } else if op == 0xb0 {
            if lazy {
                return true;
            }
            assert(0 <= ptr * imm <= 0x100 * 15) by (nonlinear_arith)
                requires
                    ptr <= 0x100,
                    imm <= 15,
            ;
            match add_entry_exec(off, count, (ptr as i128) * (imm as i128), ptr) {
                None => return false,
                Some((o, c)) => {
                    off = o;
                    count = c;
                },
            }
            pos = next;
        } else if op == 0x20 || op == 0x60 || op == 0x70 || op == 0x80 || op == 0xa0 || op == 0xc0 {
            proof {
                lemma_uleb_moves(p@, next as int, 0, 0);
            }
            let (v, q) = match uleb_exec(p, next) {
                None => return true,
                Some(read) => read,
            };
            if op == 0x20 {
                if weak {
                    return true;
                }
            } else if op == 0x60 {
                if lazy {
                    return true;
                }
            } else if op == 0x70 {
                off = signed_exec(v);
            } else if op == 0x80 {
                let moved = off + signed_exec(v);
                if !in_isize_exec(moved) {
                    return false;
                }
                off = moved;
            } else if op == 0xa0 {
                if lazy {
                    return true;
                }
                match add_entry_exec(off, count, signed_exec(v), ptr) {
                    None => return false,
                    Some((o, c)) => {
                        off = o;
                        count = c;
                    },
                }
            } else {
                proof {
                    lemma_uleb_moves(p@, q as int, 0, 0);
                }
                let (skip, r) = match uleb_exec(p, q) {
                    None => return true,
                    Some(read) => read,
                };
                if lazy {
                    return true;
                }
                if skip > u64::MAX - ptr as u64 {
                    return false;
                }
                match repeat_exec(off, count, v, signed_exec(skip + ptr as u64)) {
                    None => return false,
                    Some((o, c)) => {
                        off = o;
                        count = c;
                    },
                }
                pos = r;
                continue;
            }
            pos = q;
        } else {
            return true;
        }
    }
}

} // verus!
