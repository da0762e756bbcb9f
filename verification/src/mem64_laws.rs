//! Laws that relate the guest-memory operations to each other, stated over
//! the specifications that the operations' contracts use.

use vstd::prelude::*;
use crate::a64_runtime::{alloc_state, write_state, MemState};
use crate::environment64::map_state;
use crate::mem64::{
    access_error, alloc_rounded_size, alloc_spec, alloc_start, cstr_len_spec,
    cstr_scan, insert_region, lemma_access_within, lemma_alloc_search, lemma_insert_wf,
    lemma_region_index_at, lemma_same_layout, lemma_write_keeps_layout, map_spec, overlaps_any,
    read_bytes_spec, read_spec, region_end, region_index_at, regions_wf, same_layout,
    write_bytes_spec, zeros, ALLOCATION_START,
};

verus! {

/// Reading back what was just written gives exactly the written bytes.
pub proof fn law_read_after_write(rs: Seq<(u64, Seq<u8>)>, addr: u64, data: Seq<u8>)
    requires
        regions_wf(rs),
        write_bytes_spec(rs, addr, data) is Ok,
        data.len() <= usize::MAX,
    ensures
        read_bytes_spec(write_bytes_spec(rs, addr, data)->Ok_0, addr, data.len() as u64) == Ok::<
            Seq<u8>,
            Seq<char>,
        >(data),
{
    let rs2 = write_bytes_spec(rs, addr, data)->Ok_0;
    lemma_access_within(rs, addr as int, data.len() as int);
    lemma_write_keeps_layout(rs, addr as int, data);
    lemma_same_layout(rs, rs2, addr as int);
    let i = region_index_at(rs, addr as int);
    let off = addr - rs[i].0;
    assert(rs2[i].1.subrange(off, off + data.len()) =~= data);
}

/// A write changes no byte outside the written range: a read of a range
/// disjoint from it gives what it gave before (or is refused as before).
pub proof fn law_write_preserves_other_reads(
    rs: Seq<(u64, Seq<u8>)>,
    addr: u64,
    data: Seq<u8>,
    other: u64,
    size: u64,
)
    requires
        regions_wf(rs),
        write_bytes_spec(rs, addr, data) is Ok,
        other + size <= addr || addr + data.len() <= other,
    ensures
        read_bytes_spec(write_bytes_spec(rs, addr, data)->Ok_0, other, size) == read_bytes_spec(
            rs,
            other,
            size,
        ),
{
    let rs2 = write_bytes_spec(rs, addr, data)->Ok_0;
    lemma_access_within(rs, addr as int, data.len() as int);
    lemma_write_keeps_layout(rs, addr as int, data);
    lemma_same_layout(rs, rs2, other as int);
    if size <= usize::MAX && access_error(rs, other as int, size as int) is None {
        lemma_access_within(rs, other as int, size as int);
        let i = region_index_at(rs, addr as int);
        let j = region_index_at(rs, other as int);
        if i == j {
            let off = addr - rs[i].0;
            let o = other - rs[i].0;
            assert(rs2[j].1.subrange(o, o + size) =~= rs[j].1.subrange(o, o + size));
        } else {
            assert(rs2[j] == rs[j]);
        }
    }
}

/// A write keeps every region where it was and as large as it was.
pub proof fn law_write_keeps_layout(rs: Seq<(u64, Seq<u8>)>, addr: u64, data: Seq<u8>)
    requires
        regions_wf(rs),
        write_bytes_spec(rs, addr, data) is Ok,
    ensures
        same_layout(rs, write_bytes_spec(rs, addr, data)->Ok_0),
        regions_wf(write_bytes_spec(rs, addr, data)->Ok_0),
{
    lemma_write_keeps_layout(rs, addr as int, data);
    lemma_same_layout(rs, write_bytes_spec(rs, addr, data)->Ok_0, 0);
}

/// The region that holds the first byte of a range inside a freshly mapped
/// range is that new region.
proof fn lemma_index_in_new_region(rs: Seq<(u64, Seq<u8>)>, base: u64, size: int, addr: int)
    requires
        regions_wf(rs),
        size > 0,
        base + size <= u64::MAX,
        !overlaps_any(rs, base as int, size),
        base <= addr < base + size,
    ensures
        region_index_at(insert_region(rs, base, size), addr) == region_index_at(rs, base as int) + 1,
        insert_region(rs, base, size)[region_index_at(rs, base as int) + 1] == (base, zeros(size)),
{
    let rs2 = insert_region(rs, base, size);
    let p = region_index_at(rs, base as int) + 1;
    lemma_region_index_at(rs, base as int);
    lemma_insert_wf(rs, base, size);
    lemma_region_index_at(rs2, addr);
    let idx = region_index_at(rs2, addr);
    assert(rs2[p] == (base, zeros(size)));
    if idx > p {
        assert(region_end(rs2[p]) <= rs2[idx].0);
    }
}

/// Every byte of a freshly mapped range reads as zero.
pub proof fn law_mapped_memory_is_zero(rs: Seq<(u64, Seq<u8>)>, base: u64, size: u64, addr: u64, n: u64)
    requires
        regions_wf(rs),
        map_spec(rs, base, size) is Ok,
        base <= addr < base + size,
        addr + n <= base + size,
    ensures
        read_bytes_spec(map_spec(rs, base, size)->Ok_0, addr, n) == Ok::<Seq<u8>, Seq<char>>(
            zeros(n as int),
        ),
{
    let rs2 = map_spec(rs, base, size)->Ok_0;
    assert(rs2 == insert_region(rs, base, size as int));
    lemma_index_in_new_region(rs, base, size as int, addr as int);
    let p = region_index_at(rs, base as int) + 1;
    assert(rs2[p].1.len() == size);
    assert(region_index_at(rs2, addr as int) == p);
    assert(addr - rs2[p].0 + n <= rs2[p].1.len());
    lemma_region_index_at(rs, base as int);
    assert(read_spec(rs2, addr as int, n as int) =~= zeros(n as int));
}

/// Mapping new memory leaves every read that used to succeed unchanged.
pub proof fn law_map_keeps_existing_reads(rs: Seq<(u64, Seq<u8>)>, base: u64, size: u64, addr: u64, n: u64)
    requires
        regions_wf(rs),
        map_spec(rs, base, size) is Ok,
        read_bytes_spec(rs, addr, n) is Ok,
    ensures
        read_bytes_spec(map_spec(rs, base, size)->Ok_0, addr, n) == read_bytes_spec(rs, addr, n),
{
    if size > 0 {
        let rs2 = map_spec(rs, base, size)->Ok_0;
        assert(rs2 == insert_region(rs, base, size as int));
        let p = region_index_at(rs, base as int) + 1;
        lemma_region_index_at(rs, base as int);
        lemma_insert_wf(rs, base, size as int);
        lemma_access_within(rs, addr as int, n as int);
        lemma_region_index_at(rs, addr as int);
        lemma_region_index_at(rs2, addr as int);
        let i = region_index_at(rs, addr as int);
        let j = region_index_at(rs2, addr as int);
        let target = if i < p { i } else { i + 1 };
        assert(rs2[target] == rs[i]);
        assert(rs2[target].0 <= addr);
        if j < target {
            assert(rs2[target].0 > addr);
        }
        if j > target {
            assert(region_end(rs2[target]) <= rs2[j].0);
            assert(n == 0 && rs2[j].0 == addr);
            assert(read_spec(rs2, addr as int, 0) =~= read_spec(rs, addr as int, 0));
        } else {
            assert(j == target);
        }
    }
}

/// An allocation is at least as large as asked for (and at least 16
/// bytes), a multiple of 16 bytes long, 16-byte aligned, at or above the
/// allocator's start, within the address space, and overlaps no region
/// that was mapped before.
pub proof fn law_allocation_is_fresh(rs: Seq<(u64, Seq<u8>)>, next_allocation: u64, size: u64)
    requires
        regions_wf(rs),
        next_allocation % 16 == 0,
        alloc_spec(rs, next_allocation, size) is Ok,
    ensures
        ({
            let (b, rounded) = alloc_spec(rs, next_allocation, size)->Ok_0;
            &&& rounded >= size && rounded >= 16 && rounded % 16 == 0
            &&& b % 16 == 0
            &&& b >= ALLOCATION_START
            &&& b + rounded <= u64::MAX
            &&& !overlaps_any(rs, b as int, rounded as int)
        }),
{
    let rounded = alloc_rounded_size(size)->Some_0;
    let start = alloc_start(next_allocation);
    lemma_alloc_search(rs, start, rounded);
}

/// Every byte in `[base + from, base + to)` is readable and not NUL.
pub open spec fn nonzero_run(rs: Seq<(u64, Seq<u8>)>, base: u64, from: int, to: int) -> bool {
    forall|a: int| base + from <= a < base + to ==> #[trigger] readable_nonzero(rs, a)
}

/// The byte at `a` can be read and is not NUL.
pub open spec fn readable_nonzero(rs: Seq<(u64, Seq<u8>)>, a: int) -> bool {
    access_error(rs, a, 1) is None && read_spec(rs, a, 1)[0] != 0
}

/// The length of a C string: every byte before it is readable and not NUL,
/// the byte at it is NUL, and it is below the limit.
pub proof fn law_cstr_len(rs: Seq<(u64, Seq<u8>)>, base: u64, limit: u64)
    requires
        cstr_len_spec(rs, base, limit) is Ok,
    ensures
        cstr_len_spec(rs, base, limit)->Ok_0 < limit,
        access_error(rs, base + cstr_len_spec(rs, base, limit)->Ok_0, 1) is None,
        read_spec(rs, base + cstr_len_spec(rs, base, limit)->Ok_0, 1)[0] == 0,
        nonzero_run(rs, base, 0, cstr_len_spec(rs, base, limit)->Ok_0 as int),
{
    lemma_cstr_scan(rs, base, limit as int, 0);
}

proof fn lemma_extend_run(rs: Seq<(u64, Seq<u8>)>, base: u64, from: int, to: int)
    requires
        nonzero_run(rs, base, from + 1, to),
        access_error(rs, base + from, 1) is None,
        read_spec(rs, base + from, 1)[0] != 0,
    ensures
        nonzero_run(rs, base, from, to),
{
    assert forall|a: int| base + from <= a < base + to implies #[trigger] readable_nonzero(rs, a) by {
        if a > base + from {
            assert(readable_nonzero(rs, a));
        }
    }
}

proof fn lemma_cstr_scan(rs: Seq<(u64, Seq<u8>)>, base: u64, limit: int, length: int)
    requires
        length >= 0,
        limit <= u64::MAX,
        cstr_scan(rs, base, limit, length) is Ok,
    ensures
        length <= cstr_scan(rs, base, limit, length)->Ok_0 < limit,
        access_error(rs, base + cstr_scan(rs, base, limit, length)->Ok_0, 1) is None,
        read_spec(rs, base + cstr_scan(rs, base, limit, length)->Ok_0, 1)[0] == 0,
        nonzero_run(rs, base, length, cstr_scan(rs, base, limit, length)->Ok_0 as int),
    decreases limit - length,
{
    if length < limit && access_error(rs, base + length, 1) is None && read_spec(rs, base + length, 1)[0] != 0 {
        assert(cstr_scan(rs, base, limit, length) == cstr_scan(rs, base, limit, length + 1));
        lemma_cstr_scan(rs, base, limit, length + 1);
        let n = cstr_scan(rs, base, limit, length)->Ok_0 as int;
        lemma_extend_run(rs, base, length, n);
        assert(nonzero_run(rs, base, length, n));
    } else {
        assert(cstr_scan(rs, base, limit, length) == Ok::<u64, Seq<char>>(length as u64));
        assert(nonzero_run(rs, base, length, length));
    }
}

/// A 64-bit value written little-endian reads back as the same value.
pub proof fn law_u64_round_trip(rs: Seq<(u64, Seq<u8>)>, addr: u64, value: u64)
    requires
        regions_wf(rs),
        write_bytes_spec(rs, addr, vstd::bytes::spec_u64_to_le_bytes(value)) is Ok,
    ensures
        ({
            let rs2 = write_bytes_spec(rs, addr, vstd::bytes::spec_u64_to_le_bytes(value))->Ok_0;
            &&& access_error(rs2, addr as int, 8) is None
            &&& vstd::bytes::spec_u64_from_le_bytes(read_spec(rs2, addr as int, 8)) == value
        }),
{
    vstd::bytes::lemma_auto_spec_u64_to_from_le_bytes();
    law_read_after_write(rs, addr, vstd::bytes::spec_u64_to_le_bytes(value));
}

/// What `alloc_zeroed` hands out reads as zeros, over the whole requested
/// size.
pub proof fn law_allocation_is_zeroed(rs: Seq<(u64, Seq<u8>)>, next_allocation: u64, size: u64)
    requires
        regions_wf(rs),
        next_allocation % 16 == 0,
        alloc_spec(rs, next_allocation, size) is Ok,
    ensures
        ({
            let (b, rounded) = alloc_spec(rs, next_allocation, size)->Ok_0;
            read_bytes_spec(insert_region(rs, b, rounded as int), b, size) == Ok::<Seq<u8>, Seq<char>>(zeros(size as int))
        }),
{
    let (b, rounded) = alloc_spec(rs, next_allocation, size)->Ok_0;
    law_allocation_is_fresh(rs, next_allocation, size);
    assert(map_spec(rs, b, rounded) == Ok::<Seq<(u64, Seq<u8>)>, Seq<char>>(insert_region(rs, b, rounded as int)));
    law_mapped_memory_is_zero(rs, b, rounded, b, size);
}

/// An operation on guest memory, by what it does to the state: a write of
/// bytes (what `write_bytes`, the typed writes, `fill_bytes` and
/// `copy_bytes` do), a mapping, or an allocation.
pub enum MemOp {
    Write(u64, Seq<u8>),
    MapZeroed(u64, u64),
    Alloc(u64),
}

/// The state after `op`; a refused operation leaves it as it was.
pub open spec fn apply_op(st: MemState, op: MemOp) -> MemState {
    match op {
        MemOp::Write(addr, data) => match write_state(st, addr, data) {
            Ok(s) => s,
            Err(_) => st,
        },
        MemOp::MapZeroed(base, size) => match map_state(st, base, size) {
            Ok(s) => s,
            Err(_) => st,
        },
        MemOp::Alloc(size) => match alloc_state(st, size) {
            Ok((s, _)) => s,
            Err(_) => st,
        },
    }
}

/// The state after the operations `ops`, in order.
pub open spec fn apply_ops(st: MemState, ops: Seq<MemOp>) -> MemState
    decreases ops.len(),
{
    if ops.len() == 0 {
        st
    } else {
        apply_op(apply_ops(st, ops.drop_last()), ops.last())
    }
}

/// Whether `op` leaves the bytes `[addr, addr + n)` alone: it writes
/// elsewhere, or it maps or allocates (which only adds fresh memory).
pub open spec fn op_avoids(op: MemOp, addr: u64, n: u64) -> bool {
    match op {
        MemOp::Write(a, data) => addr + n <= a || a + data.len() <= addr,
        _ => true,
    }
}

/// The regions are well formed and the allocator looks on 16-byte
/// boundaries, as in every state a `Mem64` can reach.
pub open spec fn state_ok(st: MemState) -> bool {
    regions_wf(st.0) && st.2 % 16 == 0
}

/// One operation that leaves `[addr, addr + n)` alone keeps the state well
/// formed and what a read of those bytes gives.
proof fn lemma_op_keeps_read(st: MemState, op: MemOp, addr: u64, n: u64)
    requires
        state_ok(st),
        read_bytes_spec(st.0, addr, n) is Ok,
        op_avoids(op, addr, n),
    ensures
        state_ok(apply_op(st, op)),
        read_bytes_spec(apply_op(st, op).0, addr, n) == read_bytes_spec(st.0, addr, n),
{
    match op {
        MemOp::Write(a, data) => {
            if write_bytes_spec(st.0, a, data) is Ok {
                law_write_keeps_layout(st.0, a, data);
                law_write_preserves_other_reads(st.0, a, data, addr, n);
            }
        },
        MemOp::MapZeroed(base, size) => {
            if map_spec(st.0, base, size) is Ok {
                law_map_keeps_existing_reads(st.0, base, size, addr, n);
                if size > 0 {
                    lemma_insert_wf(st.0, base, size as int);
                }
            }
        },
        MemOp::Alloc(size) => {
            if alloc_spec(st.0, st.2, size) is Ok {
                let (b, rounded) = alloc_spec(st.0, st.2, size)->Ok_0;
                law_allocation_is_fresh(st.0, st.2, size);
                assert(map_spec(st.0, b, rounded) == Ok::<Seq<(u64, Seq<u8>)>, Seq<char>>(insert_region(st.0, b, rounded as int)));
                law_map_keeps_existing_reads(st.0, b, rounded, addr, n);
                lemma_insert_wf(st.0, b, rounded as int);
                assert((b + rounded) % 16 == 0);
            }
        },
    }
}

/// Bytes that no later operation writes read as they did: after any
/// operations that leave `[addr, addr + n)` alone, a read of it gives what
/// it gave before.
pub proof fn law_read_survives_other_operations(st: MemState, ops: Seq<MemOp>, addr: u64, n: u64)
    requires
        state_ok(st),
        read_bytes_spec(st.0, addr, n) is Ok,
        forall|i: int| 0 <= i < ops.len() ==> op_avoids(#[trigger] ops[i], addr, n),
    ensures
        state_ok(apply_ops(st, ops)),
        read_bytes_spec(apply_ops(st, ops).0, addr, n) == read_bytes_spec(st.0, addr, n),
    decreases ops.len(),
{
    if ops.len() > 0 {
        let front = ops.drop_last();
        assert forall|i: int| 0 <= i < front.len() implies op_avoids(#[trigger] front[i], addr, n) by {
            assert(front[i] == ops[i]);
        }
        law_read_survives_other_operations(st, front, addr, n);
        assert(op_avoids(ops[ops.len() - 1], addr, n));
        lemma_op_keeps_read(apply_ops(st, front), ops.last(), addr, n);
    }
}

/// A 64-bit value written at `addr` reads back as that value after any
/// later operations that leave its eight bytes alone.
pub proof fn law_u64_survives_other_operations(st: MemState, addr: u64, value: u64, ops: Seq<MemOp>)
    requires
        state_ok(st),
        write_bytes_spec(st.0, addr, vstd::bytes::spec_u64_to_le_bytes(value)) is Ok,
        forall|i: int| 0 <= i < ops.len() ==> op_avoids(#[trigger] ops[i], addr, 8),
    ensures
        ({
            let after = apply_ops(apply_op(st, MemOp::Write(addr, vstd::bytes::spec_u64_to_le_bytes(value))), ops);
            &&& read_bytes_spec(after.0, addr, 8) is Ok
            &&& vstd::bytes::spec_u64_from_le_bytes(read_bytes_spec(after.0, addr, 8)->Ok_0) == value
        }),
{
    let bytes = vstd::bytes::spec_u64_to_le_bytes(value);
    vstd::bytes::lemma_auto_spec_u64_to_from_le_bytes();
    let st1 = apply_op(st, MemOp::Write(addr, bytes));
    law_u64_round_trip(st.0, addr, value);
    law_write_keeps_layout(st.0, addr, bytes);
    law_read_after_write(st.0, addr, bytes);
    assert(read_bytes_spec(st1.0, addr, 8) is Ok);
    law_read_survives_other_operations(st1, ops, addr, 8);
}

/// Every allocation starts a mapped region, as in every state a `Mem64`
/// can reach.
pub open spec fn allocations_mapped(st: MemState) -> bool {
    forall|k: u64| #[trigger] st.1.contains_key(k) ==> exists|i: int| 0 <= i < st.0.len() && st.0[i].0 == k
}

/// Inserting a region keeps every region's base among the bases.
proof fn lemma_insert_keeps_base(rs: Seq<(u64, Seq<u8>)>, base: u64, size: int, i: int) -> (j: int)
    requires
        0 <= i < rs.len(),
    ensures
        0 <= j < insert_region(rs, base, size).len(),
        insert_region(rs, base, size)[j] == rs[i],
{
    lemma_region_index_at(rs, base as int);
    let p = region_index_at(rs, base as int) + 1;
    if i < p {
        i
    } else {
        i + 1
    }
}

/// One operation keeps the state well formed, every allocation on a
/// mapped region, and the size of the allocation at `b`.
proof fn lemma_op_keeps_allocation(st: MemState, op: MemOp, b: u64)
    requires
        state_ok(st),
        allocations_mapped(st),
        st.1.contains_key(b),
    ensures
        state_ok(apply_op(st, op)),
        allocations_mapped(apply_op(st, op)),
        apply_op(st, op).1.contains_key(b),
        apply_op(st, op).1[b] == st.1[b],
{
    let st2 = apply_op(st, op);
    match op {
        MemOp::Write(a, data) => {
            if write_bytes_spec(st.0, a, data) is Ok {
                law_write_keeps_layout(st.0, a, data);
                assert forall|k: u64| #[trigger] st2.1.contains_key(k) implies exists|i: int| 0 <= i < st2.0.len() && st2.0[i].0 == k by {
                    let i = choose|i: int| 0 <= i < st.0.len() && st.0[i].0 == k;
                    assert(st2.0[i].0 == k);
                }
            }
        },
        MemOp::MapZeroed(base, size) => {
            if map_spec(st.0, base, size) is Ok && size > 0 {
                lemma_insert_wf(st.0, base, size as int);
                assert forall|k: u64| #[trigger] st2.1.contains_key(k) implies exists|i: int| 0 <= i < st2.0.len() && st2.0[i].0 == k by {
                    let i = choose|i: int| 0 <= i < st.0.len() && st.0[i].0 == k;
                    let j = lemma_insert_keeps_base(st.0, base, size as int, i);
                    assert(st2.0[j].0 == k);
                }
            }
        },
        MemOp::Alloc(size) => {
            if alloc_spec(st.0, st.2, size) is Ok {
                let (nb, rounded) = alloc_spec(st.0, st.2, size)->Ok_0;
                law_allocation_is_fresh(st.0, st.2, size);
                lemma_insert_wf(st.0, nb, rounded as int);
                assert((nb + rounded) % 16 == 0);
                let i = choose|i: int| 0 <= i < st.0.len() && st.0[i].0 == b;
                assert(st.0[i].1.len() > 0);
                assert(nb != b) by {
                    if nb == b {
                        assert(st.0[i].0 < nb + rounded && nb < region_end(st.0[i]));
                    }
                }
                let n = insert_region(st.0, nb, rounded as int);
                assert forall|k: u64| #[trigger] st2.1.contains_key(k) implies exists|j: int| 0 <= j < st2.0.len() && st2.0[j].0 == k by {
                    if k == nb {
                        lemma_region_index_at(st.0, nb as int);
                        let p = region_index_at(st.0, nb as int) + 1;
                        assert(n[p].0 == nb);
                        assert(st2.0[p].0 == k);
                    } else {
                        let j = choose|j: int| 0 <= j < st.0.len() && st.0[j].0 == k;
                        let m = lemma_insert_keeps_base(st.0, nb, rounded as int, j);
                        assert(st2.0[m].0 == k);
                    }
                }
            }
        },
    }
}

/// An allocation keeps its size through any later operations: the size
/// recorded for the address an allocation returned stays its rounded size
/// (see `Mem64::allocation_size`).
pub proof fn law_allocation_size_survives(st: MemState, size: u64, ops: Seq<MemOp>)
    requires
        state_ok(st),
        allocations_mapped(st),
        alloc_state(st, size) is Ok,
    ensures
        ({
            let (st1, b) = alloc_state(st, size)->Ok_0;
            &&& apply_ops(st1, ops).1.contains_key(b)
            &&& apply_ops(st1, ops).1[b] == alloc_rounded_size(size)->Some_0
        }),
    decreases ops.len(),
{
    let (st1, b) = alloc_state(st, size)->Ok_0;
    if ops.len() == 0 {
    } else {
        law_allocation_size_survives(st, size, ops.drop_last());
        lemma_ops_keep_ok(st1, ops.drop_last(), b, st, size);
        lemma_op_keeps_allocation(apply_ops(st1, ops.drop_last()), ops.last(), b);
    }
}

/// The state right after an allocation, and after any operations that
/// follow, is well formed with every allocation on a mapped region.
proof fn lemma_ops_keep_ok(st1: MemState, ops: Seq<MemOp>, b: u64, st: MemState, size: u64)
    requires
        state_ok(st),
        allocations_mapped(st),
        alloc_state(st, size) == Ok::<(MemState, u64), Seq<char>>((st1, b)),
    ensures
        state_ok(apply_ops(st1, ops)),
        allocations_mapped(apply_ops(st1, ops)),
        apply_ops(st1, ops).1.contains_key(b),
    decreases ops.len(),
{
    if ops.len() == 0 {
        lemma_op_keeps_allocation_first(st, size);
    } else {
        lemma_ops_keep_ok(st1, ops.drop_last(), b, st, size);
        lemma_op_keeps_allocation(apply_ops(st1, ops.drop_last()), ops.last(), b);
    }
}

/// An allocation leaves a well formed state whose allocations, the new
/// one among them, each start a mapped region.
proof fn lemma_op_keeps_allocation_first(st: MemState, size: u64)
    requires
        state_ok(st),
        allocations_mapped(st),
        alloc_state(st, size) is Ok,
    ensures
        ({
            let (st1, b) = alloc_state(st, size)->Ok_0;
            &&& state_ok(st1)
            &&& allocations_mapped(st1)
            &&& st1.1.contains_key(b)
            &&& st1.1[b] == alloc_rounded_size(size)->Some_0
        }),
{
    let (nb, rounded) = alloc_spec(st.0, st.2, size)->Ok_0;
    let st1 = alloc_state(st, size)->Ok_0.0;
    law_allocation_is_fresh(st.0, st.2, size);
    lemma_insert_wf(st.0, nb, rounded as int);
    assert((nb + rounded) % 16 == 0);
    let n = insert_region(st.0, nb, rounded as int);
    assert forall|k: u64| #[trigger] st1.1.contains_key(k) implies exists|j: int| 0 <= j < st1.0.len() && st1.0[j].0 == k by {
        if k == nb {
            lemma_region_index_at(st.0, nb as int);
            let p = region_index_at(st.0, nb as int) + 1;
            assert(n[p].0 == nb);
            assert(st1.0[p].0 == k);
        } else {
            let j = choose|j: int| 0 <= j < st.0.len() && st.0[j].0 == k;
            let m = lemma_insert_keeps_base(st.0, nb, rounded as int, j);
            assert(st1.0[m].0 == k);
        }
    }
}

/// The address an operation hands out: an allocation's, where it
/// succeeds.
pub open spec fn op_result(st: MemState, op: MemOp) -> Option<u64> {
    match op {
        MemOp::Alloc(size) => match alloc_state(st, size) {
            Ok((_, b)) => Some(b),
            Err(_) => None,
        },
        _ => None,
    }
}

/// The addresses that the allocations among `ops` handed out.
pub open spec fn handed_out(st: MemState, ops: Seq<MemOp>) -> Set<u64>
    decreases ops.len(),
{
    if ops.len() == 0 {
        Set::empty()
    } else {
        let earlier = handed_out(st, ops.drop_last());
        match op_result(apply_ops(st, ops.drop_last()), ops.last()) {
            Some(b) => earlier.insert(b),
            None => earlier,
        }
    }
}

/// The only addresses with an allocation size are those that had one
/// before and those that allocations handed out since: any other address
/// has none (see `Mem64::allocation_size`).
pub proof fn law_only_allocations_have_sizes(st: MemState, ops: Seq<MemOp>)
    ensures
        apply_ops(st, ops).1.dom() == st.1.dom() + handed_out(st, ops),
    decreases ops.len(),
{
    if ops.len() > 0 {
        law_only_allocations_have_sizes(st, ops.drop_last());
        let prev = apply_ops(st, ops.drop_last());
        let next = apply_ops(st, ops);
        assert(next == apply_op(prev, ops.last()));
        match ops.last() {
            MemOp::Alloc(size) => {
                if alloc_state(prev, size) is Ok {
                    let b = alloc_state(prev, size)->Ok_0.1;
                    assert(next.1.dom() =~= prev.1.dom().insert(b));
                }
            },
            _ => {},
        }
        assert(next.1.dom() =~= st.1.dom() + handed_out(st, ops));
    } else {
        assert(apply_ops(st, ops).1.dom() =~= st.1.dom() + handed_out(st, ops));
    }
}

/// The state of a well-formed `Mem64` is one the laws above take; a new
/// memory, with no allocation yet, has every allocation on a mapped region.
pub proof fn law_memory_states_are_ok(m: &crate::mem64::Mem64)
    requires
        m.wf(),
    ensures
        state_ok(crate::a64_runtime::state_of(m)),
        m.allocations().dom().len() == 0 && m.allocations().dom().finite() ==> allocations_mapped(crate::a64_runtime::state_of(m)),
{
    if m.allocations().dom().len() == 0 && m.allocations().dom().finite() {
        assert forall|k: u64| #[trigger] crate::a64_runtime::state_of(m).1.contains_key(k) implies exists|i: int|
            0 <= i < crate::a64_runtime::state_of(m).0.len() && crate::a64_runtime::state_of(m).0[i].0 == k by {
            assert(m.allocations().dom().contains(k));
            vstd::set_lib::lemma_set_empty_equivalency_len(m.allocations().dom());
        }
    }
}

} // verus!
