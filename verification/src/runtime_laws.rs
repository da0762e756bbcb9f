//! What the guest runtime's host functions and stubs promise across calls.

use vstd::prelude::*;
use crate::a64_runtime::{alloc_state, compare_c_strings, first_difference, realloc_call, MemState};
use crate::mem64::{map_spec, read_bytes_spec, regions_wf};
use crate::mem64_laws::{law_allocation_is_fresh, law_map_keeps_existing_reads, law_read_after_write};
use crate::environment64::stub_index;
use crate::gles::fixed_state::GLES2FixedState;

verus! {

proof fn lemma_no_difference_with_itself(s: Seq<u8>, i: int, n: int)
    ensures
        first_difference(s, s, i, n) is None,
    decreases n - i,
{
    if i < n {
        lemma_no_difference_with_itself(s, i + 1, n);
    }
}

proof fn lemma_difference_symmetric(a: Seq<u8>, b: Seq<u8>, i: int, n: int)
    ensures
        first_difference(a, b, i, n) == first_difference(b, a, i, n),
    decreases n - i,
{
    if i < n && a[i] == b[i] {
        lemma_difference_symmetric(a, b, i + 1, n);
    }
}

/// `strcmp` and `strncmp` of a string with itself give 0.
pub proof fn law_compare_with_itself_is_zero(s: Seq<u8>, limit: int)
    ensures
        compare_c_strings(s, s, limit) == 0,
{
    let n = vstd::math::min(vstd::math::min(s.len() as int, s.len() as int), limit);
    lemma_no_difference_with_itself(s, 0, n);
}

/// `strcmp` and `strncmp` order strings the opposite way when their
/// arguments are swapped.
pub proof fn law_compare_is_antisymmetric(a: Seq<u8>, b: Seq<u8>, limit: int)
    ensures
        compare_c_strings(a, b, limit) == -compare_c_strings(b, a, limit),
{
    let n = vstd::math::min(vstd::math::min(a.len() as int, b.len() as int), limit);
    assert(n == vstd::math::min(vstd::math::min(b.len() as int, a.len() as int), limit));
    lemma_difference_symmetric(a, b, 0, n);
}

/// The first difference found from `j` is `i` when the strings agree on
/// `[j, i)` and differ at `i < n`.
proof fn lemma_difference_at(left: Seq<u8>, right: Seq<u8>, j: int, i: int, n: int)
    requires
        0 <= j <= i < n,
        i < left.len(),
        i < right.len(),
        left[i] != right[i],
        forall|k: int| j <= k < i ==> left[k] == right[k],
    ensures
        first_difference(left, right, j, n) == Some(i),
    decreases i - j,
{
    if j < i {
        lemma_difference_at(left, right, j + 1, i, n);
    }
}

/// No difference is found from `j` when the strings agree on `[j, n)`.
proof fn lemma_no_difference(left: Seq<u8>, right: Seq<u8>, j: int, n: int)
    requires
        0 <= j,
        forall|k: int| j <= k < n ==> left[k] == right[k],
    ensures
        first_difference(left, right, j, n) is None,
    decreases n - j,
{
    if j < n {
        lemma_no_difference(left, right, j + 1, n);
    }
}

/// `strcmp` and `strncmp` compare lexicographically: where the strings
/// first differ at an index below the limit, the result is the difference
/// of the two bytes there, whatever the lengths of the strings.
pub proof fn law_compare_decided_by_first_difference(left: Seq<u8>, right: Seq<u8>, limit: int, i: int)
    requires
        0 <= i < limit,
        i < left.len(),
        i < right.len(),
        left[i] != right[i],
        forall|k: int| 0 <= k < i ==> left[k] == right[k],
    ensures
        compare_c_strings(left, right, limit) == left[i] as int - right[i] as int,
{
    let n = vstd::math::min(vstd::math::min(left.len() as int, right.len() as int), limit);
    lemma_difference_at(left, right, 0, i, n);
}

/// Where one string is a prefix of the other within the limit, `strcmp` and
/// `strncmp` order them by length, each cut to the limit: equal strings
/// compare 0, and the shorter one sorts first.
pub proof fn law_compare_of_prefix_goes_by_length(left: Seq<u8>, right: Seq<u8>, limit: int)
    requires
        0 <= limit,
        forall|k: int| 0 <= k < left.len() && k < right.len() && k < limit ==> left[k] == right[k],
    ensures
        compare_c_strings(left, right, limit) == vstd::math::min(left.len() as int, limit) - vstd::math::min(
            right.len() as int,
            limit,
        ),
        compare_c_strings(left, right, limit) < 0 <==> left.len() < right.len() && left.len() < limit,
        compare_c_strings(left, right, limit) == 0 <==> (left.len() == right.len() || (left.len() >= limit
            && right.len() >= limit)),
{
    let n = vstd::math::min(vstd::math::min(left.len() as int, right.len() as int), limit);
    lemma_no_difference(left, right, 0, n);
}

/// `realloc` keeps the contents: when it succeeds, the first
/// `min(old size, new size)` bytes of the new block are those of the old
/// block, and x0 holds the new block's address.
pub proof fn law_realloc_keeps_contents(st: MemState, regs: Seq<u64>)
    requires
        regions_wf(st.0),
        st.2 % 16 == 0,
        regs.len() >= 2,
        regs[0] != 0,
        realloc_call(st, regs).0 is Ok,
    ensures
        ({
            let (st2, address) = alloc_state(st, regs[1])->Ok_0;
            let old = regs[0];
            let n = vstd::math::min(st2.1[old] as int, regs[1] as int) as u64;
            let (_, st3, regs3) = realloc_call(st, regs);
            &&& regs3[0] == address
            &&& st2.1.contains_key(old) && read_bytes_spec(st.0, old, n) is Ok ==> read_bytes_spec(st3.0, address, n)
                == read_bytes_spec(st.0, old, n)
        }),
{
    assert(alloc_state(st, regs[1]) is Ok);
    let (st2, address) = alloc_state(st, regs[1])->Ok_0;
    let old = regs[0];
    let n = vstd::math::min(st2.1[old] as int, regs[1] as int) as u64;
    let (b, rounded) = crate::mem64::alloc_spec(st.0, st.2, regs[1])->Ok_0;
    law_allocation_is_fresh(st.0, st.2, regs[1]);
    assert(map_spec(st.0, b, rounded) == Ok::<Seq<(u64, Seq<u8>)>, Seq<char>>(st2.0));
    if st2.1.contains_key(old) && read_bytes_spec(st.0, old, n) is Ok {
        law_map_keeps_existing_reads(st.0, b, rounded, old, n);
        crate::mem64::lemma_insert_wf(st.0, b, rounded as int);
        let data = read_bytes_spec(st2.0, old, n)->Ok_0;
        crate::mem64::lemma_access_within(st2.0, old as int, n as int);
        assert(data.len() == n);
        law_read_after_write(st2.0, address, data);
    }
}

/// A host function gets one stub: once a stub for `symbol` is added to a
/// table that had none, looking `symbol` up finds that stub, so asking for
/// it again gives the same address.
pub proof fn law_stub_is_made_once(
    table: Seq<(Seq<char>, Seq<char>, u32, u64)>,
    binding: Seq<char>,
    symbol: Seq<char>,
    svc: u32,
    address: u64,
)
    requires
        stub_index(table, symbol) is None,
    ensures
        ({
            let grown = table.push((binding, symbol, svc, address));
            &&& stub_index(grown, symbol) == Some(table.len() as int)
            &&& grown[table.len() as int].3 == address
        }),
{
    let grown = table.push((binding, symbol, svc, address));
    assert(grown[table.len() as int].1 == symbol);
    let c = choose|i: int| 0 <= i < grown.len() && grown[i].1 == symbol;
    if c != table.len() as int {
        assert(table[c].1 == symbol);
    }
}

/// Pushing a matrix and popping it leaves the stack as it was; popping
/// never empties a stack.
pub proof fn law_push_then_pop<M>(stack: Seq<M>)
    requires
        stack.len() >= 1,
    ensures
        ({
            let pushed = stack.push(stack.last());
            &&& pushed.len() > 1
            &&& pushed.drop_last() == stack
        }),
        (if stack.len() > 1 { stack.drop_last() } else { stack }).len() >= 1,
{
    assert(stack.push(stack.last()).drop_last() =~= stack);
}

/// What `glIsEnabled` answers for a capability the fixed-function state
/// tracks is what `glEnable` or `glDisable` set last: after setting `cap`,
/// `cap` reads back as set, and every other tracked capability reads back
/// as before.
pub proof fn law_enable_is_read_back<M: Copy, A>(
    before: GLES2FixedState<M, A>,
    after: GLES2FixedState<M, A>,
    cap: u32,
    enabled: bool,
    handled: bool,
    other: u32,
)
    requires
        GLES2FixedState::enable_post(&before, &after, cap, enabled, handled),
    ensures
        before.cap_target(cap) is Some ==> after.cap_enabled(cap) == Some(enabled),
        before.cap_target(cap) is None ==> after.cap_enabled(cap) == before.cap_enabled(cap),
        before.cap_target(other) is Some && before.cap_target(other) != before.cap_target(cap) ==> after.cap_enabled(other)
            == before.cap_enabled(other),
{
    assert(after.cap_target(other) == before.cap_target(other));
    assert(after.cap_target(cap) == before.cap_target(cap));
}

} // verus!
