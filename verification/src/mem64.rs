//! Guest memory for 64-bit (ARM64) programs: a set of disjoint mapped
//! regions of bytes, plus a simple bump allocator on top of them.

use std::collections::BTreeMap;
use vstd::prelude::*;

verus! {

pub type Guest64USize = u64;

pub type Guest64Addr = u64;

pub const MAP_TOO_LARGE: &'static str = "64-bit mapping is too large for this host";

pub const MAP_OVERFLOWS: &'static str = "64-bit mapping overflows";

pub const MAP_OVERLAPS: &'static str = "64-bit mapping overlaps an existing mapping";

pub const FILL_TOO_LARGE: &'static str = "64-bit fill is too large for this host";

pub const COPY_TOO_LARGE: &'static str = "64-bit copy is too large for this host";

pub const STRING_LIMIT_TOO_LARGE: &'static str = "64-bit string limit is too large for this host";

pub const STRING_UNTERMINATED: &'static str =
    "64-bit string has no terminator within the safety limit";

pub const READ_TOO_LARGE: &'static str = "64-bit read is too large for this host";

pub const ALLOC_SIZE_OVERFLOWS: &'static str = "allocation size overflows";

pub const ALLOC_ADDRESS_OVERFLOWS: &'static str = "allocation address overflows";

pub const ACCESS_UNMAPPED: &'static str = "64-bit memory access is unmapped";

pub const ACCESS_OVERFLOWS: &'static str = "64-bit access overflows";

pub const ACCESS_OUT_OF_BOUNDS: &'static str = "64-bit memory access is out of bounds";

/// First address handed out by the allocator.
pub const ALLOCATION_START: u64 = 0x1_0000_0000;

/// A mapped range of guest memory, as reported by [`Mem64::mapped_regions`].
#[derive(Debug, Clone, Copy, PartialEq, Eq, Structural)]
pub struct Region {
    pub base: Guest64Addr,
    pub size: Guest64USize,
}

/// One past the last address of a region given as (base, contents).
pub open spec fn region_end(r: (u64, Seq<u8>)) -> int {
    r.0 + r.1.len()
}

/// Regions are non-empty, do not run past the end of the address space,
/// and are sorted by base without overlapping.
pub open spec fn regions_wf(rs: Seq<(u64, Seq<u8>)>) -> bool {
    &&& forall|i: int|
        0 <= i < rs.len() ==> #[trigger] rs[i].1.len() > 0 && region_end(rs[i]) <= u64::MAX
    &&& forall|i: int, j: int|
        0 <= i < j < rs.len() ==> region_end(#[trigger] rs[i]) <= #[trigger] rs[j].0
}

/// Index of the last region whose base is at or below `addr`, or -1 when
/// there is none.
pub open spec fn region_index_at(rs: Seq<(u64, Seq<u8>)>, addr: int) -> int
    decreases rs.len(),
{
    if rs.len() == 0 {
        -1
    } else if rs.last().0 <= addr {
        rs.len() - 1
    } else {
        region_index_at(rs.drop_last(), addr)
    }
}

/// Why an access of `size` bytes at `addr` is refused, if it is: the
/// access must lie inside the region that holds its first byte.
pub open spec fn access_error(rs: Seq<(u64, Seq<u8>)>, addr: int, size: int) -> Option<Seq<char>> {
    let i = region_index_at(rs, addr);
    if i < 0 {
        Some(ACCESS_UNMAPPED@)
    } else if (addr - rs[i].0) + size > u64::MAX {
        Some(ACCESS_OVERFLOWS@)
    } else if (addr - rs[i].0) + size > rs[i].1.len() {
        Some(ACCESS_OUT_OF_BOUNDS@)
    } else {
        None
    }
}

/// The bytes an access of `size` bytes at `addr` sees.
pub open spec fn read_spec(rs: Seq<(u64, Seq<u8>)>, addr: int, size: int) -> Seq<u8> {
    let i = region_index_at(rs, addr);
    rs[i].1.subrange(addr - rs[i].0, addr - rs[i].0 + size)
}

/// `bytes` with `data` written over it from offset `off` on.
pub open spec fn splice(bytes: Seq<u8>, off: int, data: Seq<u8>) -> Seq<u8> {
    bytes.subrange(0, off) + data + bytes.subrange(off + data.len(), bytes.len() as int)
}

/// The regions after `data` is written at `addr`.
pub open spec fn write_spec(rs: Seq<(u64, Seq<u8>)>, addr: int, data: Seq<u8>) -> Seq<(u64, Seq<u8>)> {
    let i = region_index_at(rs, addr);
    rs.update(i, (rs[i].0, splice(rs[i].1, addr - rs[i].0, data)))
}

/// `n` zero bytes.
pub open spec fn zeros(n: int) -> Seq<u8> {
    Seq::new(n as nat, |k: int| 0u8)
}

/// `n` copies of `value`.
pub open spec fn repeated(value: u8, n: int) -> Seq<u8> {
    Seq::new(n as nat, |k: int| value)
}

/// Whether some region shares an address with `[base, base + size)`.
pub open spec fn overlaps_any(rs: Seq<(u64, Seq<u8>)>, base: int, size: int) -> bool {
    exists|i: int| 0 <= i < rs.len() && #[trigger] rs[i].0 < base + size && base < region_end(rs[i])
}

/// The regions after a zero-filled region of `size` bytes is mapped at `base`.
pub open spec fn insert_region(rs: Seq<(u64, Seq<u8>)>, base: u64, size: int) -> Seq<(u64, Seq<u8>)> {
    rs.insert(region_index_at(rs, base as int) + 1, (base, zeros(size)))
}

/// What mapping `size` zero bytes at `base` does to the regions, or why it
/// is refused.
pub open spec fn map_spec(rs: Seq<(u64, Seq<u8>)>, base: u64, size: u64) -> Result<
    Seq<(u64, Seq<u8>)>,
    Seq<char>,
> {
    if size > usize::MAX {
        Err(MAP_TOO_LARGE@)
    } else if base + size > u64::MAX {
        Err(MAP_OVERFLOWS@)
    } else if size == 0 {
        Ok(rs)
    } else if overlaps_any(rs, base as int, size as int) {
        Err(MAP_OVERLAPS@)
    } else {
        Ok(insert_region(rs, base, size as int))
    }
}

/// The view of a byte result.
pub open spec fn bytes_result(r: Result<Vec<u8>, &'static str>) -> Result<Seq<u8>, Seq<char>> {
    match r {
        Ok(v) => Ok(v@),
        Err(e) => Err(e@),
    }
}

/// What reading `size` bytes at `addr` gives, or why it is refused.
pub open spec fn read_bytes_spec(rs: Seq<(u64, Seq<u8>)>, addr: u64, size: u64) -> Result<
    Seq<u8>,
    Seq<char>,
> {
    if size > usize::MAX {
        Err(READ_TOO_LARGE@)
    } else {
        match access_error(rs, addr as int, size as int) {
            Some(e) => Err(e),
            None => Ok(read_spec(rs, addr as int, size as int)),
        }
    }
}

/// What writing `data` at `addr` does to the regions, or why it is refused.
pub open spec fn write_bytes_spec(rs: Seq<(u64, Seq<u8>)>, addr: u64, data: Seq<u8>) -> Result<
    Seq<(u64, Seq<u8>)>,
    Seq<char>,
> {
    match access_error(rs, addr as int, data.len() as int) {
        Some(e) => Err(e),
        None => Ok(write_spec(rs, addr as int, data)),
    }
}

/// The view of a result that carries a plain value.
pub open spec fn value_result<T>(r: Result<T, &'static str>) -> Result<T, Seq<char>> {
    match r {
        Ok(v) => Ok(v),
        Err(e) => Err(e@),
    }
}

/// Whether a mutating operation that returned `r` took the regions from
/// `before` to `after` as `expected` says: on success to the expected
/// regions, on refusal with the expected message and nothing changed.
pub open spec fn write_outcome(
    before: Seq<(u64, Seq<u8>)>,
    after: Seq<(u64, Seq<u8>)>,
    r: Result<(), &'static str>,
    expected: Result<Seq<(u64, Seq<u8>)>, Seq<char>>,
) -> bool {
    match expected {
        Ok(rs) => r is Ok && after == rs,
        Err(e) => r is Err && r->Err_0@ == e && after == before,
    }
}

/// What reading a value of `size` bytes at `addr` gives, or why it is
/// refused; `decode` turns the bytes into the value.
pub open spec fn read_value_spec<T>(
    rs: Seq<(u64, Seq<u8>)>,
    addr: u64,
    size: int,
    decode: spec_fn(Seq<u8>) -> T,
) -> Result<T, Seq<char>> {
    match access_error(rs, addr as int, size) {
        Some(e) => Err(e),
        None => Ok(decode(read_spec(rs, addr as int, size))),
    }
}

/// The two little-endian 64-bit halves of 16 bytes.
pub open spec fn u128_halves(bytes: Seq<u8>) -> [u64; 2] {
    [
        vstd::bytes::spec_u64_from_le_bytes(bytes.subrange(0, 8)),
        vstd::bytes::spec_u64_from_le_bytes(bytes.subrange(8, 16)),
    ]
}

/// The little-endian bytes of two 64-bit halves.
pub open spec fn u128_halves_bytes(value: [u64; 2]) -> Seq<u8> {
    vstd::bytes::spec_u64_to_le_bytes(value[0]) + vstd::bytes::spec_u64_to_le_bytes(value[1])
}

/// Scans for the NUL that ends a C string at `base`, from byte `length` on,
/// stopping at `limit` bytes or at the first byte that cannot be read.
pub open spec fn cstr_scan(rs: Seq<(u64, Seq<u8>)>, base: u64, limit: int, length: int) -> Result<
    u64,
    Seq<char>,
>
    decreases limit - length,
{
    if length >= limit {
        Err(STRING_UNTERMINATED@)
    } else {
        match access_error(rs, base + length, 1) {
            Some(e) => Err(e),
            None => if read_spec(rs, base + length, 1)[0] == 0 {
                Ok(length as u64)
            } else {
                cstr_scan(rs, base, limit, length + 1)
            },
        }
    }
}

/// The length of the C string at `base` within `limit` bytes, or why none
/// was found.
pub open spec fn cstr_len_spec(rs: Seq<(u64, Seq<u8>)>, base: u64, limit: u64) -> Result<
    u64,
    Seq<char>,
> {
    if limit > usize::MAX {
        Err(STRING_LIMIT_TOO_LARGE@)
    } else {
        cstr_scan(rs, base, limit as int, 0)
    }
}

/// `x` rounded down to a multiple of 16.
pub open spec fn round_down16(x: int) -> int {
    x - x % 16
}

/// The size an allocation request of `size` bytes takes: at least 16,
/// rounded up to a multiple of 16; `None` when that overflows.
pub open spec fn alloc_rounded_size(size: u64) -> Option<u64> {
    let s = if size < 16 { 16 } else { size };
    if s + 15 > u64::MAX {
        None
    } else {
        Some(round_down16(s + 15) as u64)
    }
}

/// The allocator's search for a free base: starting at `base`, as long as
/// the last region that starts before `base + size` reaches past `base`,
/// move to the first 16-byte boundary at or after that region's end.
pub open spec fn alloc_search(rs: Seq<(u64, Seq<u8>)>, base: u64, size: u64) -> Result<u64, Seq<char>>
    decreases u64::MAX - base,
{
    if base + size > u64::MAX {
        Err(ALLOC_ADDRESS_OVERFLOWS@)
    } else {
        let k = region_index_at(rs, base + size - 1);
        if k >= 0 && region_end(rs[k]) > base {
            let re = region_end(rs[k]);
            if re + 15 > u64::MAX {
                Err(ALLOC_ADDRESS_OVERFLOWS@)
            } else {
                alloc_search(rs, round_down16(re + 15) as u64, size)
            }
        } else {
            Ok(base)
        }
    }
}

/// Where an allocation starts looking.
pub open spec fn alloc_start(next_allocation: u64) -> u64 {
    if next_allocation < ALLOCATION_START {
        ALLOCATION_START
    } else {
        next_allocation
    }
}

/// What an allocation request of `size` bytes gives: the base and the
/// rounded size, or why it is refused.
pub open spec fn alloc_spec(rs: Seq<(u64, Seq<u8>)>, next_allocation: u64, size: u64) -> Result<
    (u64, u64),
    Seq<char>,
> {
    match alloc_rounded_size(size) {
        None => Err(ALLOC_SIZE_OVERFLOWS@),
        Some(rounded) => match alloc_search(rs, alloc_start(next_allocation), rounded) {
            Err(e) => Err(e),
            Ok(b) => if rounded > usize::MAX {
                Err(MAP_TOO_LARGE@)
            } else {
                Ok((b, rounded))
            },
        },
    }
}

/// A found access lies inside one region, which ends within the address
/// space.
pub proof fn lemma_access_within(rs: Seq<(u64, Seq<u8>)>, addr: int, size: int)
    requires
        regions_wf(rs),
        access_error(rs, addr, size) is None,
        size >= 0,
    ensures
        0 <= region_index_at(rs, addr) < rs.len(),
        rs[region_index_at(rs, addr)].0 <= addr,
        addr + size <= region_end(rs[region_index_at(rs, addr)]),
        region_end(rs[region_index_at(rs, addr)]) <= u64::MAX,
{
    lemma_region_index_at(rs, addr);
}

/// Under well-formedness, a new range overlaps some region exactly when it
/// overlaps the region at or below its base or the one right after it.
pub proof fn lemma_overlap_neighbours(rs: Seq<(u64, Seq<u8>)>, base: int, size: int)
    requires
        regions_wf(rs),
        size > 0,
    ensures
        ({
            let k = region_index_at(rs, base);
            overlaps_any(rs, base, size) <==> ((k >= 0 && region_end(rs[k]) > base) || (k + 1 < rs.len()
                && rs[k + 1].0 < base + size))
        }),
{
    lemma_region_index_at(rs, base);
    let k = region_index_at(rs, base);
    if overlaps_any(rs, base, size) {
        let i = choose|i: int| 0 <= i < rs.len() && #[trigger] rs[i].0 < base + size && base < region_end(rs[i]);
        if i < k {
            assert(region_end(rs[i]) <= rs[k].0);
        } else if i > k + 1 {
            assert(region_end(rs[k + 1]) <= rs[i].0);
            assert(rs[k + 1].1.len() > 0);
        }
    }
    if k >= 0 && region_end(rs[k]) > base {
        assert(rs[k].0 < base + size);
    }
    if k + 1 < rs.len() && rs[k + 1].0 < base + size {
        assert(rs[k + 1].0 > base);
        assert(base < region_end(rs[k + 1]));
    }
}

/// Mapping a fresh, non-overlapping range keeps the regions well formed,
/// and every other region keeps its place relative to it.
pub proof fn lemma_insert_wf(rs: Seq<(u64, Seq<u8>)>, base: u64, size: int)
    requires
        regions_wf(rs),
        size > 0,
        base + size <= u64::MAX,
        !overlaps_any(rs, base as int, size),
    ensures
        regions_wf(insert_region(rs, base, size)),
{
    lemma_region_index_at(rs, base as int);
    lemma_overlap_neighbours(rs, base as int, size);
    let k = region_index_at(rs, base as int);
    let p = k + 1;
    let n = insert_region(rs, base, size);
    assert(n.len() == rs.len() + 1);
    assert forall|i: int| 0 <= i < n.len() implies #[trigger] n[i].1.len() > 0 && region_end(n[i]) <= u64::MAX by {
        if i < p {
            assert(n[i] == rs[i]);
        } else if i > p {
            assert(n[i] == rs[i - 1]);
        }
    }
    assert forall|i: int, j: int| 0 <= i < j < n.len() implies region_end(#[trigger] n[i]) <= #[trigger] n[j].0 by {
        if j < p {
            assert(n[i] == rs[i] && n[j] == rs[j]);
        } else if i > p {
            assert(n[i] == rs[i - 1] && n[j] == rs[j - 1]);
        } else if i < p && j > p {
            assert(n[i] == rs[i] && n[j] == rs[j - 1]);
            assert(region_end(rs[i]) <= rs[k + 1].0);
            if k + 1 < j - 1 {
                assert(region_end(rs[k + 1]) <= rs[j - 1].0);
            }
        } else if i == p {
            assert(n[j] == rs[j - 1]);
            if k + 1 < j - 1 {
                assert(region_end(rs[k + 1]) <= rs[j - 1].0);
            }
        } else {
            assert(n[i] == rs[i]);
            if i < k {
                assert(region_end(rs[i]) <= rs[k].0);
            }
        }
    }
}

/// A base found by the allocator's search lies at or after where the
/// search started, keeps the start's 16-byte alignment, fits in the address
/// space, and overlaps no region.
pub proof fn lemma_alloc_search(rs: Seq<(u64, Seq<u8>)>, base: u64, size: u64)
    requires
        regions_wf(rs),
        size > 0,
    ensures
        alloc_search(rs, base, size) matches Ok(b) ==> {
            &&& b >= base
            &&& b + size <= u64::MAX
            &&& (base % 16 == 0 ==> b % 16 == 0)
            &&& !overlaps_any(rs, b as int, size as int)
        },
    decreases u64::MAX - base,
{
    if base + size <= u64::MAX {
        let k = region_index_at(rs, base + size - 1);
        lemma_region_index_at(rs, base + size - 1);
        if k >= 0 && region_end(rs[k]) > base {
            let re = region_end(rs[k]);
            if re + 15 <= u64::MAX {
                lemma_alloc_search(rs, round_down16(re + 15) as u64, size);
            }
        } else {
            if overlaps_any(rs, base as int, size as int) {
                let i = choose|i: int|
                    0 <= i < rs.len() && #[trigger] rs[i].0 < base + size && base < region_end(rs[i]);
                if i < k {
                    assert(region_end(rs[i]) <= rs[k].0);
                }
            }
        }
    }
}

/// Properties of [`region_index_at`]: it names the last region based at or
/// below `addr`.
pub proof fn lemma_region_index_at(rs: Seq<(u64, Seq<u8>)>, addr: int)
    ensures
        -1 <= region_index_at(rs, addr) < rs.len(),
        region_index_at(rs, addr) >= 0 ==> rs[region_index_at(rs, addr)].0 <= addr,
        forall|j: int| region_index_at(rs, addr) < j < rs.len() ==> #[trigger] rs[j].0 > addr,
    decreases rs.len(),
{
    if rs.len() > 0 && rs.last().0 > addr {
        let k = region_index_at(rs, addr);
        lemma_region_index_at(rs.drop_last(), addr);
        assert forall|j: int| k < j < rs.len() implies #[trigger] rs[j].0 > addr by {
            if j < rs.len() - 1 {
                assert(rs.drop_last()[j] == rs[j]);
            }
        }
    }
}

/// Two region lists with the same bases and lengths.
pub open spec fn same_layout(a: Seq<(u64, Seq<u8>)>, b: Seq<(u64, Seq<u8>)>) -> bool {
    &&& a.len() == b.len()
    &&& forall|i: int| 0 <= i < a.len() ==> #[trigger] a[i].0 == b[i].0 && a[i].1.len() == b[i].1.len()
}

/// Well-formedness and region lookup depend only on the layout.
pub proof fn lemma_same_layout(a: Seq<(u64, Seq<u8>)>, b: Seq<(u64, Seq<u8>)>, addr: int)
    requires
        same_layout(a, b),
    ensures
        regions_wf(a) ==> regions_wf(b),
        region_index_at(a, addr) == region_index_at(b, addr),
        forall|size: int| #[trigger] access_error(a, addr, size) == access_error(b, addr, size),
    decreases a.len(),
{
    if regions_wf(a) {
        assert forall|i: int, j: int| 0 <= i < j < b.len() implies region_end(#[trigger] b[i]) <= #[trigger] b[j].0 by {
            assert(region_end(a[i]) <= a[j].0);
        }
        assert forall|i: int| 0 <= i < b.len() implies #[trigger] b[i].1.len() > 0 && region_end(b[i]) <= u64::MAX by {
            assert(a[i].1.len() > 0);
        }
    }
    if a.len() > 0 {
        lemma_same_layout(a.drop_last(), b.drop_last(), addr);
        assert(a.last() == a[a.len() - 1]);
    }
    lemma_region_index_at(a, addr);
    let i = region_index_at(a, addr);
    if i >= 0 {
        assert(a[i].0 == b[i].0 && a[i].1.len() == b[i].1.len());
    }
}

/// Writing inside a region keeps the layout.
pub proof fn lemma_write_keeps_layout(rs: Seq<(u64, Seq<u8>)>, addr: int, data: Seq<u8>)
    requires
        access_error(rs, addr, data.len() as int) is None,
    ensures
        same_layout(rs, write_spec(rs, addr, data)),
{
    lemma_region_index_at(rs, addr);
}

/// `u64` keys are totally ordered, as the allocation map needs.
proof fn lemma_u64_key_order()
    ensures
        vstd::laws_cmp::obeys_cmp::<u64>(),
{
    broadcast use vstd::laws_cmp::group_laws_cmp;

}

#[derive(Debug)]
struct MappedRegion {
    base: u64,
    bytes: Vec<u8>,
}

/// Guest memory of a 64-bit program.
#[derive(Debug)]
pub struct Mem64 {
    /// Sorted by base, with no two overlapping. The memory looks up the
    /// last region at or below an address, which on a `BTreeMap` is
    /// `range(..=addr).next_back()`; vstd specifies no `range` of a
    /// `BTreeMap`, so the regions are kept in a sorted `Vec` instead.
    regions: Vec<MappedRegion>,
    allocations: BTreeMap<Guest64Addr, Guest64USize>,
    next_allocation: Guest64Addr,
}

impl Mem64 {
    /// The mapped regions, as (base, contents), sorted by base.
    pub closed spec fn regions(&self) -> Seq<(u64, Seq<u8>)> {
        self.regions@.map_values(|r: MappedRegion| (r.base, r.bytes@))
    }

    /// The allocations made so far: base address to rounded size.
    pub closed spec fn allocations(&self) -> Map<u64, u64> {
        self.allocations@
    }

    /// Where the allocator starts its next search.
    pub closed spec fn next_allocation(&self) -> u64 {
        self.next_allocation
    }

    /// The memory's invariant: its regions are well formed and the
    /// allocator's next start is 16-byte aligned.
    pub open spec fn wf(&self) -> bool {
        &&& regions_wf(self.regions())
        &&& self.next_allocation() % 16 == 0
    }

    proof fn lemma_regions_len(&self)
        ensures
            self.regions().len() == self.regions@.len(),
            forall|i: int|
                0 <= i < self.regions@.len() ==> #[trigger] self.regions()[i] == (
                self.regions@[i].base,
                self.regions@[i].bytes@,
            ),
    {
    }

    /// Index of the last region based at or below `addr`.
    fn find_index(&self, addr: u64) -> (r: Option<usize>)
        ensures
            match r {
                Some(i) => i as int == region_index_at(self.regions(), addr as int),
                None => region_index_at(self.regions(), addr as int) == -1,
            },
    {
        let ghost rs = self.regions();
        let mut i = self.regions.len();
        assert(rs.subrange(0, i as int) =~= rs);
        while i > 0
            invariant
                i <= self.regions@.len(),
                rs == self.regions(),
                rs.len() == self.regions@.len(),
                region_index_at(rs, addr as int) == region_index_at(rs.subrange(0, i as int), addr as int),
            decreases i,
        {
            proof {
                assert(rs.subrange(0, i as int).drop_last() =~= rs.subrange(0, i - 1));
                assert(rs[i - 1] == (self.regions@[i - 1].base, self.regions@[i - 1].bytes@));
            }
            if self.regions[i - 1].base <= addr {
                return Some(i - 1);
            }
            i = i - 1;
        }
        assert(rs.subrange(0, 0).len() == 0);
        None
    }



    /// Empty memory whose allocator starts at [`ALLOCATION_START`].
    pub fn new() -> (m: Self)
        ensures
            m.wf(),
            m.regions() == Seq::<(u64, Seq<u8>)>::empty(),
            m.allocations() == Map::<u64, u64>::empty(),
            m.next_allocation() == ALLOCATION_START,
    {
        let m = Mem64 { regions: Vec::new(), allocations: BTreeMap::new(), next_allocation: ALLOCATION_START };
        assert(m.regions() =~= Seq::<(u64, Seq<u8>)>::empty());
        m
    }

    /// Reads `size` bytes at `addr` from the region that holds `addr`.
    fn load(&self, addr: u64, size: u64) -> (r: Result<Vec<u8>, &'static str>)
        requires
            self.wf(),
            size <= usize::MAX,
        ensures
            bytes_result(r) == match access_error(self.regions(), addr as int, size as int) {
                Some(e) => Err(e),
                None => Ok(read_spec(self.regions(), addr as int, size as int)),
            },
    {
        let (i, off) = match self.locate(addr, size) {
            Ok(found) => found,
            Err(e) => return Err(e),
        };
        proof {
            self.lemma_regions_len();
            lemma_access_within(self.regions(), addr as int, size as int);
        }
        Ok(self.copy_out(i, off, size as usize))
    }

    /// Reads `size` bytes at `addr`; the bytes must lie in one region.
    pub fn read_bytes(&self, base: Guest64Addr, size: Guest64USize) -> (r: Result<Vec<u8>, &'static str>)
        requires
            self.wf(),
        ensures
            bytes_result(r) == read_bytes_spec(self.regions(), base, size),
    {
        if size > usize::MAX as u64 {
            return Err(READ_TOO_LARGE);
        }
        self.load(base, size)
    }

    /// Writes `bytes` at `base`; they must fit in the region that holds `base`.
    pub fn write_bytes(&mut self, base: Guest64Addr, bytes: &[u8]) -> (r: Result<(), &'static str>)
        requires
            old(self).wf(),
        ensures
            final(self).wf(),
            final(self).allocations() == old(self).allocations(),
            final(self).next_allocation() == old(self).next_allocation(),
            write_outcome(old(self).regions(), final(self).regions(), r, write_bytes_spec(old(self).regions(), base, bytes@)),
    {
        self.store(base, bytes)
    }

    /// Sets `size` bytes at `base` to `value`.
    pub fn fill_bytes(&mut self, base: Guest64Addr, value: u8, size: Guest64USize) -> (r: Result<(), &'static str>)
        requires
            old(self).wf(),
        ensures
            final(self).wf(),
            final(self).allocations() == old(self).allocations(),
            final(self).next_allocation() == old(self).next_allocation(),
            write_outcome(
                old(self).regions(),
                final(self).regions(),
                r,
                if size > usize::MAX {
                    Err(FILL_TOO_LARGE@)
                } else {
                    write_bytes_spec(old(self).regions(), base, repeated(value, size as int))
                },
            ),
    {
        if size > usize::MAX as u64 {
            return Err(FILL_TOO_LARGE);
        }
        if let Err(e) = self.locate(base, size) {
            return Err(e);
        }
        let data = vec![value; size as usize];
        assert(data@ =~= repeated(value, size as int));
        self.store(base, data.as_slice())
    }

    /// Copies `size` bytes from `source` to `destination`; each range must
    /// lie in one region.
    pub fn copy_bytes(&mut self, destination: Guest64Addr, source: Guest64Addr, size: Guest64USize) -> (r: Result<(), &'static str>)
        requires
            old(self).wf(),
        ensures
            final(self).wf(),
            final(self).allocations() == old(self).allocations(),
            final(self).next_allocation() == old(self).next_allocation(),
            write_outcome(
                old(self).regions(),
                final(self).regions(),
                r,
                if size > usize::MAX {
                    Err(COPY_TOO_LARGE@)
                } else {
                    match read_bytes_spec(old(self).regions(), source, size) {
                        Err(e) => Err(e),
                        Ok(data) => write_bytes_spec(old(self).regions(), destination, data),
                    }
                },
            ),
    {
        if size > usize::MAX as u64 {
            return Err(COPY_TOO_LARGE);
        }
        let bytes = match self.load(source, size) {
            Ok(bytes) => bytes,
            Err(e) => return Err(e),
        };
        self.store(destination, bytes.as_slice())
    }

    /// Length of the NUL-terminated string at `base`, looking at no more
    /// than `limit` bytes.
    pub fn cstr_len(&self, base: Guest64Addr, limit: Guest64USize) -> (r: Result<Guest64USize, &'static str>)
        requires
            self.wf(),
        ensures
            value_result(r) == cstr_len_spec(self.regions(), base, limit),
    {
        if limit > usize::MAX as u64 {
            return Err(STRING_LIMIT_TOO_LARGE);
        }
        let lim = limit as usize;
        let ghost rs = self.regions();
        assert(cstr_len_spec(rs, base, limit) == cstr_scan(rs, base, lim as int, 0));
        let mut length: usize = 0;
        while length < lim
            invariant
                self.wf(),
                rs == self.regions(),
                length <= lim,
                lim == limit,
                cstr_scan(rs, base, lim as int, 0) == cstr_scan(rs, base, lim as int, length as int),
                length > 0 ==> access_error(rs, base + length - 1, 1) is None,
            decreases lim - length,
        {
            proof {
                if length > 0 {
                    lemma_access_within(rs, base + length - 1, 1);
                }
            }
            let addr = base + length as u64;
            let byte = match self.load_value(addr, 1) {
                Ok(bytes) => bytes[0],
                Err(e) => {
                    assert(cstr_scan(rs, base, lim as int, length as int) == Err::<u64, Seq<char>>(e@));
                    return Err(e);
                },
            };
            if byte == 0 {
                assert(cstr_scan(rs, base, lim as int, length as int) == Ok::<u64, Seq<char>>(length as u64));
                return Ok(length as u64);
            }
            length = length + 1;
        }
        Err(STRING_UNTERMINATED)
    }

    /// Reads `N` bytes at `addr` into an array.
    fn load_value(&self, addr: u64, size: u64) -> (r: Result<Vec<u8>, &'static str>)
        requires
            self.wf(),
            size <= 16,
        ensures
            bytes_result(r) == match access_error(self.regions(), addr as int, size as int) {
                Some(e) => Err(e),
                None => Ok(read_spec(self.regions(), addr as int, size as int)),
            },
            r matches Ok(v) ==> v@.len() == size,
    {
        let r = self.load(addr, size);
        proof {
            if r is Ok {
                lemma_access_within(self.regions(), addr as int, size as int);
            }
        }
        r
    }

    /// Reads the byte at `addr`.
    pub fn read_u8(&self, addr: Guest64Addr) -> (r: Result<u8, &'static str>)
        requires
            self.wf(),
        ensures
            value_result(r) == read_value_spec(self.regions(), addr, 1, |b: Seq<u8>| b[0]),
    {
        match self.load_value(addr, 1) {
            Ok(v) => Ok(v[0]),
            Err(e) => Err(e),
        }
    }

    /// Reads the little-endian 16-bit value at `addr`.
    pub fn read_u16(&self, addr: Guest64Addr) -> (r: Result<u16, &'static str>)
        requires
            self.wf(),
        ensures
            value_result(r) == read_value_spec(self.regions(), addr, 2, |b: Seq<u8>| vstd::bytes::spec_u16_from_le_bytes(b)),
    {
        match self.load_value(addr, 2) {
            Ok(v) => Ok(vstd::bytes::u16_from_le_bytes(v.as_slice())),
            Err(e) => Err(e),
        }
    }

    /// Reads the little-endian 32-bit value at `addr`.
    pub fn read_u32(&self, addr: Guest64Addr) -> (r: Result<u32, &'static str>)
        requires
            self.wf(),
        ensures
            value_result(r) == read_value_spec(self.regions(), addr, 4, |b: Seq<u8>| vstd::bytes::spec_u32_from_le_bytes(b)),
    {
        match self.load_value(addr, 4) {
            Ok(v) => Ok(vstd::bytes::u32_from_le_bytes(v.as_slice())),
            Err(e) => Err(e),
        }
    }

    /// Reads the little-endian 64-bit value at `addr`.
    pub fn read_u64(&self, addr: Guest64Addr) -> (r: Result<u64, &'static str>)
        requires
            self.wf(),
        ensures
            value_result(r) == read_value_spec(self.regions(), addr, 8, |b: Seq<u8>| vstd::bytes::spec_u64_from_le_bytes(b)),
    {
        match self.load_value(addr, 8) {
            Ok(v) => Ok(vstd::bytes::u64_from_le_bytes(v.as_slice())),
            Err(e) => Err(e),
        }
    }

    /// Reads the 128-bit value at `addr` as two little-endian 64-bit halves,
    /// the lower address first.
    pub fn read_u128(&self, addr: Guest64Addr) -> (r: Result<[u64; 2], &'static str>)
        requires
            self.wf(),
        ensures
            value_result(r) == read_value_spec(self.regions(), addr, 16, |b: Seq<u8>| u128_halves(b)),
    {
        match self.load_value(addr, 16) {
            Ok(v) => {
                let low = vstd::bytes::u64_from_le_bytes(vstd::slice::slice_subrange(v.as_slice(), 0, 8));
                let high = vstd::bytes::u64_from_le_bytes(vstd::slice::slice_subrange(v.as_slice(), 8, 16));
                let value = [low, high];
                assert(value =~= u128_halves(v@));
                Ok(value)
            },
            Err(e) => Err(e),
        }
    }

    /// Writes the byte `value` at `addr`.
    pub fn write_u8(&mut self, addr: Guest64Addr, value: u8) -> (r: Result<(), &'static str>)
        requires
            old(self).wf(),
        ensures
            final(self).wf(),
            final(self).allocations() == old(self).allocations(),
            final(self).next_allocation() == old(self).next_allocation(),
            write_outcome(old(self).regions(), final(self).regions(), r, write_bytes_spec(old(self).regions(), addr, seq![value])),
    {
        let data = vec![value];
        assert(data@ =~= seq![value]);
        self.store(addr, data.as_slice())
    }

    /// Writes `value` little-endian at `addr`.
    pub fn write_u16(&mut self, addr: Guest64Addr, value: u16) -> (r: Result<(), &'static str>)
        requires
            old(self).wf(),
        ensures
            final(self).wf(),
            final(self).allocations() == old(self).allocations(),
            final(self).next_allocation() == old(self).next_allocation(),
            write_outcome(old(self).regions(), final(self).regions(), r, write_bytes_spec(old(self).regions(), addr, vstd::bytes::spec_u16_to_le_bytes(value))),
    {
        let data = vstd::bytes::u16_to_le_bytes(value);
        self.store(addr, data.as_slice())
    }

    /// Writes `value` little-endian at `addr`.
    pub fn write_u32(&mut self, addr: Guest64Addr, value: u32) -> (r: Result<(), &'static str>)
        requires
            old(self).wf(),
        ensures
            final(self).wf(),
            final(self).allocations() == old(self).allocations(),
            final(self).next_allocation() == old(self).next_allocation(),
            write_outcome(old(self).regions(), final(self).regions(), r, write_bytes_spec(old(self).regions(), addr, vstd::bytes::spec_u32_to_le_bytes(value))),
    {
        let data = vstd::bytes::u32_to_le_bytes(value);
        self.store(addr, data.as_slice())
    }

    /// Writes `value` little-endian at `addr`.
    pub fn write_u64(&mut self, addr: Guest64Addr, value: u64) -> (r: Result<(), &'static str>)
        requires
            old(self).wf(),
        ensures
            final(self).wf(),
            final(self).allocations() == old(self).allocations(),
            final(self).next_allocation() == old(self).next_allocation(),
            write_outcome(old(self).regions(), final(self).regions(), r, write_bytes_spec(old(self).regions(), addr, vstd::bytes::spec_u64_to_le_bytes(value))),
    {
        let data = vstd::bytes::u64_to_le_bytes(value);
        self.store(addr, data.as_slice())
    }

    /// Writes the two 64-bit halves of `value` little-endian at `addr`, the
    /// first half at the lower address.
    pub fn write_u128(&mut self, addr: Guest64Addr, value: [u64; 2]) -> (r: Result<(), &'static str>)
        requires
            old(self).wf(),
        ensures
            final(self).wf(),
            final(self).allocations() == old(self).allocations(),
            final(self).next_allocation() == old(self).next_allocation(),
            write_outcome(old(self).regions(), final(self).regions(), r, write_bytes_spec(old(self).regions(), addr, u128_halves_bytes(value))),
    {
        let mut data = vstd::bytes::u64_to_le_bytes(value[0]);
        let mut high = vstd::bytes::u64_to_le_bytes(value[1]);
        data.append(&mut high);
        self.store(addr, data.as_slice())
    }

    /// The rounded size of the allocation made at `address`, if any.
    pub fn allocation_size(&self, address: Guest64Addr) -> (r: Option<Guest64USize>)
        ensures
            r == if self.allocations().contains_key(address) {
                Some(self.allocations()[address])
            } else {
                None::<u64>
            },
    {
        proof { lemma_u64_key_order(); }
        match self.allocations.get(&address) {
            Some(size) => Some(*size),
            None => None,
        }
    }

    /// The mapped regions, sorted by base.
    pub fn mapped_regions(&self) -> (r: Vec<Region>)
        ensures
            r@.len() == self.regions().len(),
            forall|i: int|
                0 <= i < r@.len() ==> #[trigger] r@[i] == (Region {
                    base: self.regions()[i].0,
                    size: self.regions()[i].1.len() as u64,
                }),
    {
        proof { self.lemma_regions_len(); }
        let mut out: Vec<Region> = Vec::new();
        let mut i: usize = 0;
        while i < self.regions.len()
            invariant
                i <= self.regions@.len(),
                out@.len() == i,
                forall|j: int|
                    0 <= j < i ==> #[trigger] out@[j] == (Region {
                        base: self.regions()[j].0,
                        size: self.regions()[j].1.len() as u64,
                    }),
            decreases self.regions@.len() - i,
        {
            proof { self.lemma_regions_len(); }
            out.push(Region { base: self.regions[i].base, size: self.regions[i].bytes.len() as u64 });
            i = i + 1;
        }
        out
    }

    /// Maps `size` zero bytes at `base`. A zero-sized mapping does nothing;
    /// a mapping that would overlap an existing one is refused.
    pub fn map_zeroed(&mut self, base: Guest64Addr, size: Guest64USize) -> (r: Result<(), &'static str>)
        requires
            old(self).wf(),
        ensures
            final(self).wf(),
            final(self).allocations() == old(self).allocations(),
            final(self).next_allocation() == old(self).next_allocation(),
            write_outcome(old(self).regions(), final(self).regions(), r, map_spec(old(self).regions(), base, size)),
    {
        if size > usize::MAX as u64 {
            return Err(MAP_TOO_LARGE);
        }
        let end = match base.checked_add(size) {
            Some(end) => end,
            None => return Err(MAP_OVERFLOWS),
        };
        if size == 0 {
            return Ok(());
        }
        let ghost rs = self.regions();
        proof {
            self.lemma_regions_len();
            lemma_region_index_at(rs, base as int);
            lemma_overlap_neighbours(rs, base as int, size as int);
        }
        let count = self.regions.len();
        let found = self.find_index(base);
        let next = match found {
            Some(k) => {
                let previous_end = self.regions[k].base + self.regions[k].bytes.len() as u64;
                if previous_end > base {
                    return Err(MAP_OVERLAPS);
                }
                k + 1
            },
            None => 0,
        };
        if next < self.regions.len() && self.regions[next].base < end {
            return Err(MAP_OVERLAPS);
        }
        let bytes = vec![0u8; size as usize];
        assert(bytes@ =~= zeros(size as int));
        self.regions.insert(next, MappedRegion { base, bytes });
        proof {
            assert(self.regions() =~= insert_region(rs, base, size as int));
            lemma_insert_wf(rs, base, size as int);
        }
        Ok(())
    }

    /// Allocates zeroed memory of at least `size` bytes (at least 16,
    /// rounded up to a multiple of 16) at a 16-byte aligned address that no
    /// mapped region occupies, searching upward from where the previous
    /// allocation ended.
    pub fn alloc_zeroed(&mut self, size: Guest64USize) -> (r: Result<Guest64Addr, &'static str>)
        requires
            old(self).wf(),
        ensures
            final(self).wf(),
            match alloc_spec(old(self).regions(), old(self).next_allocation(), size) {
                Err(e) => {
                    &&& r is Err && r->Err_0@ == e
                    &&& final(self).regions() == old(self).regions()
                    &&& final(self).allocations() == old(self).allocations()
                    &&& final(self).next_allocation() == old(self).next_allocation()
                },
                Ok((b, rounded)) => {
                    &&& r == Ok::<u64, &'static str>(b)
                    &&& final(self).regions() == insert_region(old(self).regions(), b, rounded as int)
                    &&& final(self).allocations() == old(self).allocations().insert(b, rounded)
                    &&& final(self).next_allocation() == b + rounded
                },
            },
    {
        let least = if size < 16 { 16 } else { size };
        let rounded = match least.checked_add(15) {
            Some(x) => x & !15u64,
            None => return Err(ALLOC_SIZE_OVERFLOWS),
        };
        proof {
            let x = (least + 15) as u64;
            assert(x & !15u64 == x - x % 16) by (bit_vector);
        }
        let ghost rs = self.regions();
        let mut base = if self.next_allocation < ALLOCATION_START {
            ALLOCATION_START
        } else {
            self.next_allocation
        };
        let ghost start = base;
        proof {
            lemma_alloc_search(rs, start, rounded);
        }
        loop
            invariant
                self.wf(),
                rs == self.regions(),
                rounded >= 16,
                alloc_rounded_size(size) == Some(rounded),
                start == alloc_start(old(self).next_allocation()),
                rs == old(self).regions(),
                self.allocations() == old(self).allocations(),
                self.next_allocation() == old(self).next_allocation(),
                alloc_search(rs, start, rounded) == alloc_search(rs, base, rounded),
            ensures
                alloc_search(rs, start, rounded) == Ok::<u64, Seq<char>>(base),
            decreases u64::MAX - base,
        {
            let end = match base.checked_add(rounded) {
                Some(end) => end,
                None => {
                    assert(alloc_search(rs, base, rounded) == Err::<u64, Seq<char>>(ALLOC_ADDRESS_OVERFLOWS@));
                    return Err(ALLOC_ADDRESS_OVERFLOWS);
                },
            };
            proof {
                self.lemma_regions_len();
                lemma_region_index_at(rs, end - 1);
            }
            let overlap_end = match self.find_index(end - 1) {
                Some(k) => {
                    let region_end = self.regions[k].base + self.regions[k].bytes.len() as u64;
                    if region_end > base {
                        Some(region_end)
                    } else {
                        None
                    }
                },
                None => None,
            };
            match overlap_end {
                Some(region_end) => {
                    let next = match region_end.checked_add(15) {
                        Some(x) => x & !15u64,
                        None => {
                            assert(alloc_search(rs, base, rounded) == Err::<u64, Seq<char>>(ALLOC_ADDRESS_OVERFLOWS@));
                            return Err(ALLOC_ADDRESS_OVERFLOWS);
                        },
                    };
                    proof {
                        let x = (region_end + 15) as u64;
                        assert(x & !15u64 == x - x % 16) by (bit_vector);
                    }
                    base = next;
                },
                None => break,
            }
        }
        let mapped = self.map_zeroed(base, rounded);
        if let Err(e) = mapped {
            return Err(e);
        }
        proof { lemma_u64_key_order(); }
        self.allocations.insert(base, rounded);
        self.next_allocation = base + rounded;
        Ok(base)
    }

    proof fn lemma_wf_layout(&self, other: &Self)
        requires
            self.wf(),
            same_layout(self.regions(), other.regions()),
            other.next_allocation == self.next_allocation,
        ensures
            other.wf(),
    {
        lemma_same_layout(self.regions(), other.regions(), 0);
    }

    /// Copies `size` bytes at offset `off` of region `i`.
    fn copy_out(&self, i: usize, off: usize, size: usize) -> (r: Vec<u8>)
        requires
            i < self.regions@.len(),
            off + size <= self.regions@[i as int].bytes@.len(),
        ensures
            r@ == self.regions()[i as int].1.subrange(off as int, off + size),
    {
        proof { self.lemma_regions_len(); }
        let mut out: Vec<u8> = Vec::with_capacity(size);
        let n = self.regions[i].bytes.len();
        let mut k: usize = 0;
        while k < size
            invariant
                k <= size,
                n == self.regions@[i as int].bytes@.len(),
                i < self.regions@.len(),
                off + size <= self.regions@[i as int].bytes@.len(),
                out@ =~= self.regions@[i as int].bytes@.subrange(off as int, off + k),
            decreases size - k,
        {
            out.push(self.regions[i].bytes[off + k]);
            k = k + 1;
        }
        out
    }

    /// Writes `data` at offset `off` of region `i`.
    fn copy_in(&mut self, i: usize, off: usize, data: &[u8])
        requires
            i < old(self).regions@.len(),
            off + data@.len() <= old(self).regions@[i as int].bytes@.len(),
        ensures
            final(self).regions() == old(self).regions().update(
                i as int,
                (old(self).regions()[i as int].0, splice(old(self).regions()[i as int].1, off as int, data@)),
            ),
            final(self).allocations == old(self).allocations,
            final(self).next_allocation == old(self).next_allocation,
    {
        let ghost old_regions = self.regions@;
        let ghost old_bytes = self.regions@[i as int].bytes@;
        let n = self.regions[i].bytes.len();
        let mut k: usize = 0;
        while k < data.len()
            invariant
                k <= data@.len(),
                n == old_bytes.len(),
                self.regions@.len() == old_regions.len(),
                i < old_regions.len(),
                off + data@.len() <= old_bytes.len(),
                old_bytes == old_regions[i as int].bytes@,
                forall|j: int| 0 <= j < old_regions.len() && j != i ==> self.regions@[j] == old_regions[j],
                self.regions@[i as int].base == old_regions[i as int].base,
                self.regions@[i as int].bytes@ =~= old_bytes.subrange(0, off as int) + data@.subrange(0, k as int)
                    + old_bytes.subrange(off + k, old_bytes.len() as int),
                self.allocations == old(self).allocations,
                self.next_allocation == old(self).next_allocation,
            decreases data@.len() - k,
        {
            self.regions[i].bytes[off + k] = data[k];
            k = k + 1;
        }
        proof {
            assert(data@.subrange(0, data@.len() as int) =~= data@);
            assert(self.regions() =~= old(self).regions().update(
                i as int,
                (old(self).regions()[i as int].0, splice(old(self).regions()[i as int].1, off as int, data@)),
            ));
        }
    }

    /// Writes `data` at `addr`, as [`write_bytes_spec`] says.
    fn store(&mut self, addr: u64, data: &[u8]) -> (r: Result<(), &'static str>)
        requires
            old(self).wf(),
        ensures
            final(self).wf(),
            final(self).allocations() == old(self).allocations(),
            final(self).next_allocation() == old(self).next_allocation(),
            match write_bytes_spec(old(self).regions(), addr, data@) {
                Ok(rs) => r is Ok && final(self).regions() == rs,
                Err(e) => r == Err::<(), &'static str>(r->Err_0) && r->Err_0@ == e && final(self).regions() == old(self).regions(),
            },
    {
        let (i, off) = match self.locate(addr, data.len() as u64) {
            Ok(found) => found,
            Err(e) => return Err(e),
        };
        proof {
            self.lemma_regions_len();
            lemma_region_index_at(self.regions(), addr as int);
        }
        let ghost before = *self;
        self.copy_in(i, off, data);
        proof {
            lemma_write_keeps_layout(before.regions(), addr as int, data@);
            before.lemma_wf_layout(self);
        }
        Ok(())
    }

    /// Locates an access of `size` bytes at `addr`: the region index and the
    /// offset into it.
    fn locate(&self, addr: u64, size: u64) -> (r: Result<(usize, usize), &'static str>)
        requires
            self.wf(),
        ensures
            match r {
                Ok((i, off)) => {
                    &&& access_error(self.regions(), addr as int, size as int) is None
                    &&& i as int == region_index_at(self.regions(), addr as int)
                    &&& off == addr - self.regions()[i as int].0
                    &&& i < self.regions@.len()
                },
                Err(e) => access_error(self.regions(), addr as int, size as int) == Some(e@),
            },
    {
        proof {
            self.lemma_regions_len();
            lemma_region_index_at(self.regions(), addr as int);
        }
        let i = match self.find_index(addr) {
            Some(i) => i,
            None => return Err(ACCESS_UNMAPPED),
        };
        let base = self.regions[i].base;
        let offset = addr - base;
        let end = match offset.checked_add(size) {
            Some(end) => end,
            None => return Err(ACCESS_OVERFLOWS),
        };
        if end > self.regions[i].bytes.len() as u64 {
            return Err(ACCESS_OUT_OF_BOUNDS);
        }
        Ok((i, offset as usize))
    }
}

impl Default for Mem64 {
    /// Empty memory whose allocator starts at address 0; [`Mem64::new`]
    /// is what a program's memory starts as.
    fn default() -> (m: Self)
        ensures
            m.wf(),
            m.regions() == Seq::<(u64, Seq<u8>)>::empty(),
            m.allocations() == Map::<u64, u64>::empty(),
            m.next_allocation() == 0,
    {
        let m = Mem64 { regions: Vec::new(), allocations: BTreeMap::new(), next_allocation: 0 };
        assert(m.regions() =~= Seq::<(u64, Seq<u8>)>::empty());
        m
    }
}

} // verus!
