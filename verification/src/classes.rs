//! Size-class arithmetic.
//!
//! Every allocation is served from one of 22 power-of-two size classes:
//! class `c` holds items of `2^(c + 3)` bytes, from 8 bytes (class 0) up to
//! 16 MiB (class 21). A request is bumped to at least 8 bytes and then rounded
//! up to the next power of two.

use vstd::prelude::*;
use vstd::arithmetic::power2::{
    pow2, lemma2_to64, lemma_pow2_adds, lemma_pow2_pos, lemma_pow2_strictly_increases,
    lemma_pow2_unfold,
};

verus! {

/// The largest size a single allocation may have: 16 MiB.
pub const MAX_POSSIBLE_ALLOCATION: usize = 16777216;

/// The item size of class `c`: `2^(c + 3)` bytes.
pub open spec fn item_of(c: int) -> int {
    pow2((c + 3) as nat) as int
}

/// Requests below 8 bytes are served from the smallest class.
pub open spec fn eff_size(size: int) -> int {
    if size < 8 {
        8
    } else {
        size
    }
}

/// The smallest class at or after `c` whose item size reaches `size`,
/// capped at the last class.
pub open spec fn class_from(size: int, c: int) -> int
    decreases 22 - c,
{
    if c >= 21 || item_of(c) >= size {
        c
    } else {
        class_from(size, c + 1)
    }
}

/// The class that serves a request of `size` bytes.
pub open spec fn class_of(size: int) -> int {
    class_from(eff_size(size), 0)
}

/// Item sizes lie between 8 bytes and 16 MiB and are multiples of 8.
pub proof fn lemma_item_of_bounds(c: int)
    requires
        0 <= c < 22,
    ensures
        8 <= item_of(c) <= 0x1000000,
        item_of(c) % 8 == 0,
{
    lemma2_to64();
    lemma_pow2_adds(3, c as nat);
    lemma_pow2_pos(c as nat);
    if c + 3 < 24 {
        lemma_pow2_strictly_increases((c + 3) as nat, 24);
    }
}

proof fn lemma_class_from_bounds(size: int, c: int)
    requires
        0 <= c <= 21,
        size <= 0x1000000,
    ensures
        c <= class_from(size, c) <= 21,
        item_of(class_from(size, c)) >= size,
    decreases 22 - c,
{
    lemma2_to64();
    if c >= 21 || item_of(c) >= size {
    } else {
        lemma_class_from_bounds(size, c + 1);
    }
}

/// The chosen class exists and its item size covers the request.
pub proof fn lemma_class_of_bounds(size: int)
    requires
        size <= 0x1000000,
    ensures
        0 <= class_of(size) < 22,
        item_of(class_of(size)) >= eff_size(size),
{
    lemma_class_from_bounds(eff_size(size), 0);
}

/// Computes the item size and size-class index that serve a request of
/// `size` bytes.
pub(crate) fn size_and_class(size: u32) -> (r: (u64, usize))
    requires
        size <= 0x1000000,
    ensures
        r.1 as int == class_of(size as int),
        r.0 as int == item_of(r.1 as int),
        r.1 < 22,
{
    let eff: u64 = if size < 8 {
        8
    } else {
        size as u64
    };
    let mut item: u64 = 8;
    let mut c: usize = 0;
    proof {
        lemma2_to64();
    }
    while item < eff
        invariant
            eff == eff_size(size as int),
            8 <= eff <= 0x1000000,
            0 <= c <= 21,
            item as int == item_of(c as int),
            class_of(size as int) == class_from(eff as int, c as int),
        decreases 0x1000000 - item,
    {
        proof {
            lemma2_to64();
            if c >= 21 {
                assert(item as int == item_of(21));
                assert(false);
            }
            lemma_pow2_unfold((c + 4) as nat);
        }
        item = item * 2;
        c = c + 1;
    }
    (item, c)
}

} // verus!
