//! Laws that hold of every reachable heap state.
//!
//! Each law is stated over the model; `allocate` and `deallocate` ensure that
//! every state they produce satisfies [`Model::wf`], so these apply after any
//! sequence of calls that respects the contracts.

use vstd::prelude::*;
use crate::classes::{class_of, item_of, lemma_class_of_bounds};
use crate::model::{
    alloc_fits, alloc_off, alloc_result, dealloc_step, is_live_handle, live_handle, live_index,
    sum_live, Model,
};
use crate::proofs::{lemma_dealloc_wf, lemma_live_offsets_distinct};

verus! {

/// Alignment: every live handle lies a positive multiple of 8 past
/// `ptr_offset`. Together with `allocate`'s own `ensures` this covers every
/// handle the allocator ever returns.
pub proof fn lemma_alignment(m: Model, j: int)
    requires
        m.wf(),
        0 <= j < m.live.len(),
    ensures
        (live_handle(m, j) - m.offset) % 8 == 0,
        live_handle(m, j) - m.offset >= 8,
{
    assert(m.live_block_ok(m.live[j]));
}

/// Uniqueness: at any point, all live handles are distinct.
pub proof fn lemma_uniqueness(m: Model, j: int, k: int)
    requires
        m.wf(),
        0 <= j < m.live.len(),
        0 <= k < m.live.len(),
        j != k,
    ensures
        live_handle(m, j) != live_handle(m, k),
{
    lemma_live_offsets_distinct(m, j, k);
}

/// Accounting: `total_size` equals the sum over live blocks of the item size
/// plus the 8-byte header.
pub proof fn lemma_accounting(m: Model)
    requires
        m.wf(),
    ensures
        m.total == sum_live(m.live),
{
}

/// LIFO reuse within a class: when the free list of the request's class is
/// nonempty, a successful allocation returns the handle at its head — and
/// `deallocate` puts the most recently freed block of the class there.
pub proof fn lemma_lifo_reuse(m: Model, size: int)
    requires
        m.wf(),
        alloc_fits(m, size),
        m.heads[class_of(size)] != 0,
    ensures
        alloc_result(m, size) == m.offset + m.heads[class_of(size)] + 8,
{
}

/// Round trip: freeing a live handle and allocating the same size again —
/// with no intervening traffic — yields the same handle. The one exception,
/// excluded here, is the block at internal offset 0: its class's free list
/// cannot hold it, because 0 marks the empty list.
pub proof fn lemma_round_trip(m: Model, ptr: int, size: int)
    requires
        m.wf(),
        is_live_handle(m, ptr),
        m.live[live_index(m, ptr)].class == class_of(size),
        size <= 0x1000000,
        ptr != m.offset + 8,
    ensures
        alloc_result(dealloc_step(m, ptr), size) == ptr,
{
    lemma_dealloc_wf(m, ptr);
    let m2 = dealloc_step(m, ptr);
    let c = class_of(size);
    let h = ptr - m.offset - 8;
    lemma_class_of_bounds(size);
    assert(m2.heads[c] == h);
    assert(h != 0);
    assert(item_of(c) + 8 + m2.total == m.total);
    assert(alloc_fits(m2, size));
    assert(alloc_off(m2, size) == h);
}

} // verus!
