//! Proofs that the allocator's transitions preserve the invariant.

use vstd::prelude::*;
use vstd::arithmetic::div_mod::{lemma_div_denominator, lemma_fundamental_div_mod};
use crate::classes::{class_of, item_of, lemma_class_of_bounds, lemma_item_of_bounds};
use crate::model::{
    alloc_fits, alloc_needs_bump, alloc_off, alloc_step, blocks_disjoint, dealloc_step,
    init_model, is_live_handle, le32_at, live_index, store_le32, sum_live, Block, Model,
};

verus! {

/// The accounted bytes of a live set are nonnegative.
pub proof fn lemma_sum_live_nonneg(s: Seq<Block>)
    ensures
        sum_live(s) >= 0,
    decreases s.len(),
{
    if s.len() > 0 {
        lemma_sum_live_nonneg(s.drop_last());
        vstd::arithmetic::power2::lemma_pow2_pos((s.last().class + 3) as nat);
    }
}

/// Removing a block removes exactly its accounted bytes.
pub proof fn lemma_sum_live_remove(s: Seq<Block>, j: int)
    requires
        0 <= j < s.len(),
    ensures
        sum_live(s.remove(j)) == sum_live(s) - item_of(s[j].class) - 8,
    decreases s.len(),
{
    if j == s.len() - 1 {
        assert(s.remove(j) =~= s.drop_last());
    } else {
        assert(s.remove(j).drop_last() =~= s.drop_last().remove(j));
        assert(s.remove(j).last() == s.last());
        lemma_sum_live_remove(s.drop_last(), j);
    }
}

/// Appending a block adds exactly its accounted bytes.
pub proof fn lemma_sum_live_push(s: Seq<Block>, b: Block)
    ensures
        sum_live(s.push(b)) == sum_live(s) + item_of(b.class) + 8,
{
    assert(s.push(b).drop_last() =~= s);
    assert(s.push(b).last() == b);
}

/// Reading back four stored little-endian bytes yields the stored value.
pub proof fn lemma_le32_roundtrip(bytes: Seq<u8>, at: int, v: int)
    requires
        0 <= v < 0x1_0000_0000,
        0 <= at,
        at + 4 <= bytes.len(),
    ensures
        le32_at(store_le32(bytes, at, v), at) == v,
{
    lemma_fundamental_div_mod(v, 256);
    lemma_fundamental_div_mod(v / 256, 256);
    lemma_fundamental_div_mod(v / 65536, 256);
    lemma_div_denominator(v, 256, 256);
    lemma_div_denominator(v, 65536, 256);
    assert(v / 16777216 < 256) by {
        lemma_div_denominator(v, 16777216, 256);
        lemma_fundamental_div_mod(v / 16777216, 256);
    }
    assert((v / 16777216) % 256 == v / 16777216);
}

/// Distinct live blocks have distinct offsets.
pub proof fn lemma_live_offsets_distinct(m: Model, j: int, k: int)
    requires
        m.wf(),
        0 <= j < m.live.len(),
        0 <= k < m.live.len(),
        j != k,
    ensures
        m.live[j].off != m.live[k].off,
{
    assert(m.live_block_ok(m.live[j]));
    assert(m.live_block_ok(m.live[k]));
    lemma_item_of_bounds(m.live[j].class);
    lemma_item_of_bounds(m.live[k].class);
    assert(blocks_disjoint(m.live[j], m.live[k]));
}

/// A freshly constructed heap satisfies the invariant.
pub proof fn lemma_init_wf(ptr_offset: int, heap_size: int)
    requires
        0 <= ptr_offset < 0x1_0000_0000,
        0 <= heap_size < 0x1_0000_0000,
    ensures
        init_model(ptr_offset, heap_size).wf(),
{
    let m = init_model(ptr_offset, heap_size);
    assert(m.heads.len() == 22);
    assert(forall|c: int| 0 <= c < 22 ==> (#[trigger] m.free[c]).len() == 0);
    assert(forall|c: int| 0 <= c < 22 ==> (#[trigger] m.heads[c]) == 0);
    assert(m.free_wf());
    assert(m.disjoint_ok());
}

proof fn lemma_alloc_wf_pop(m: Model, size: int)
    requires
        m.wf(),
        alloc_fits(m, size),
        m.heads[class_of(size)] != 0,
    ensures
        alloc_step(m, size).wf(),
{
    let c = class_of(size);
    let h = alloc_off(m, size);
    let m2 = alloc_step(m, size);
    let nb = Block { off: h, class: c };
    lemma_class_of_bounds(size);
    lemma_item_of_bounds(c);
    assert(m.free[c].len() > 0);
    assert(m.free[c][0] == h);
    assert(m.free_block_ok(c, 0));
    lemma_sum_live_push(m.live, nb);

    // The header write touches only the popped block's own header.
    assert(forall|k: int|
        0 <= k < m.bytes.len() && !(h <= k < h + 8) ==> (#[trigger] m2.bytes[k]) == m.bytes[k]);

    // Live blocks.
    assert forall|j: int| 0 <= j < m2.live.len() implies m2.live_block_ok(
        #[trigger] m2.live[j],
    ) by {
        if j < m.live.len() {
            assert(m.live_block_ok(m.live[j]));
            assert(blocks_disjoint(m.live[j], (Block { off: m.free[c][0], class: c })));
            lemma_item_of_bounds(m.live[j].class);
        } else {
            assert(m2.live[j] == nb);
            assert(m2.bytes[h] == c as u8);
        }
    }

    // Free lists.
    assert forall|c2: int, j: int|
        0 <= c2 < 22 && 0 <= j < m2.free[c2].len() implies #[trigger] m2.free_block_ok(
        c2,
        j,
    ) by {
        if c2 == c {
            assert(m.free_block_ok(c, j + 1));
            assert(m2.free[c][j] == m.free[c][j + 1]);
            assert(blocks_disjoint(
                (Block { off: m.free[c][j + 1], class: c }),
                (Block { off: m.free[c][0], class: c }),
            ));
            lemma_item_of_bounds(c);
            if j + 1 < m2.free[c].len() {
                assert(m2.free[c][j + 1] == m.free[c][j + 2]);
            }
        } else {
            assert(m.free_block_ok(c2, j));
            assert(blocks_disjoint(
                (Block { off: m.free[c2][j], class: c2 }),
                (Block { off: m.free[c][0], class: c }),
            ));
            lemma_item_of_bounds(c2);
        }
    }
    assert forall|c2: int| 0 <= c2 < 22 implies ((#[trigger] m2.heads[c2]) == 0 <==> m2.free[c2].len()
        == 0) by {
        if c2 == c {
            if m.free[c].len() > 1 {
                assert(m.free_block_ok(c, 1));
                assert(m2.heads[c] == m.free[c][1]);
            }
        }
    }

    // Disjointness.
    assert forall|j: int, k: int|
        0 <= j < m2.live.len() && 0 <= k < m2.live.len() && j != k implies blocks_disjoint(
        #[trigger] m2.live[j],
        #[trigger] m2.live[k],
    ) by {
        if j < m.live.len() && k < m.live.len() {
        } else if j < m.live.len() {
            assert(blocks_disjoint(m.live[j], (Block { off: m.free[c][0], class: c })));
        } else {
            assert(blocks_disjoint(m.live[k], (Block { off: m.free[c][0], class: c })));
        }
    }
    assert forall|j: int, c2: int, mm: int|
        0 <= j < m2.live.len() && 0 <= c2 < 22 && 0 <= mm < m2.free[c2].len()
        implies blocks_disjoint(
        #[trigger] m2.live[j],
        (Block { off: #[trigger] m2.free[c2][mm], class: c2 }),
    ) by {
        let mo = if c2 == c {
            mm + 1
        } else {
            mm
        };
        assert(m2.free[c2][mm] == m.free[c2][mo]);
        if j < m.live.len() {
            assert(blocks_disjoint(m.live[j], (Block { off: m.free[c2][mo], class: c2 })));
        } else {
            assert(blocks_disjoint(
                (Block { off: m.free[c][0], class: c }),
                (Block { off: m.free[c2][mo], class: c2 }),
            ));
        }
    }
    assert forall|c2: int, mm: int, c3: int, mm2: int|
        0 <= c2 < 22 && 0 <= mm < m2.free[c2].len() && 0 <= c3 < 22 && 0 <= mm2
            < m2.free[c3].len() && !(c2 == c3 && mm == mm2) implies blocks_disjoint(
        (Block { off: #[trigger] m2.free[c2][mm], class: c2 }),
        (Block { off: #[trigger] m2.free[c3][mm2], class: c3 }),
    ) by {
        let mo = if c2 == c {
            mm + 1
        } else {
            mm
        };
        let mo2 = if c3 == c {
            mm2 + 1
        } else {
            mm2
        };
        assert(m2.free[c2][mm] == m.free[c2][mo]);
        assert(m2.free[c3][mm2] == m.free[c3][mo2]);
        assert(blocks_disjoint(
            (Block { off: m.free[c2][mo], class: c2 }),
            (Block { off: m.free[c3][mo2], class: c3 }),
        ));
    }
}

proof fn lemma_alloc_wf_bump(m: Model, size: int)
    requires
        m.wf(),
        alloc_fits(m, size),
        m.heads[class_of(size)] == 0,
        m.bumper + 8 <= m.capacity,
    ensures
        alloc_step(m, size).wf(),
{
    let c = class_of(size);
    let h = m.bumper;
    let m2 = alloc_step(m, size);
    let nb = Block { off: h, class: c };
    lemma_class_of_bounds(size);
    lemma_item_of_bounds(c);
    lemma_sum_live_push(m.live, nb);

    assert(forall|k: int|
        0 <= k < m.bytes.len() && !(h <= k < h + 8) ==> (#[trigger] m2.bytes[k]) == m.bytes[k]);

    assert forall|j: int| 0 <= j < m2.live.len() implies m2.live_block_ok(
        #[trigger] m2.live[j],
    ) by {
        if j < m.live.len() {
            assert(m.live_block_ok(m.live[j]));
            lemma_item_of_bounds(m.live[j].class);
        } else {
            assert(m2.live[j] == nb);
            assert(m2.bytes[h] == c as u8);
        }
    }

    assert forall|c2: int, j: int|
        0 <= c2 < 22 && 0 <= j < m2.free[c2].len() implies #[trigger] m2.free_block_ok(
        c2,
        j,
    ) by {
        assert(m.free_block_ok(c2, j));
        lemma_item_of_bounds(c2);
    }

    assert forall|j: int, k: int|
        0 <= j < m2.live.len() && 0 <= k < m2.live.len() && j != k implies blocks_disjoint(
        #[trigger] m2.live[j],
        #[trigger] m2.live[k],
    ) by {
        if j < m.live.len() && k < m.live.len() {
        } else if j < m.live.len() {
            assert(m.live_block_ok(m.live[j]));
        } else {
            assert(m.live_block_ok(m.live[k]));
        }
    }
    assert forall|j: int, c2: int, mm: int|
        0 <= j < m2.live.len() && 0 <= c2 < 22 && 0 <= mm < m2.free[c2].len()
        implies blocks_disjoint(
        #[trigger] m2.live[j],
        (Block { off: #[trigger] m2.free[c2][mm], class: c2 }),
    ) by {
        assert(m.free_block_ok(c2, mm));
        if j < m.live.len() {
        } else {
            assert(m2.live[j] == nb);
        }
    }
}

/// `deallocate` preserves the invariant. The freed block's class byte is
/// still in place, the accounting total covers the block — so the saturating
/// subtraction never saturates — and the block the handle names is unique.
pub proof fn lemma_dealloc_wf(m: Model, ptr: int)
    requires
        m.wf(),
        is_live_handle(m, ptr),
    ensures
        dealloc_step(m, ptr).wf(),
        0 <= live_index(m, ptr) < m.live.len(),
        m.live[live_index(m, ptr)].off == ptr - m.offset - 8,
        m.bytes[ptr - m.offset - 8] as int == m.live[live_index(m, ptr)].class,
        m.total >= item_of(m.bytes[ptr - m.offset - 8] as int) + 8,
        dealloc_step(m, ptr).total == m.total - item_of(m.bytes[ptr - m.offset - 8] as int) - 8,
{
    let j = live_index(m, ptr);
    assert(0 <= j < m.live.len() && m.live[j].off == ptr - m.offset - 8);
    let b = m.live[j];
    let h = b.off;
    assert(m.live_block_ok(b));
    let c = b.class;
    assert(m.bytes[h] as int == c);
    lemma_item_of_bounds(c);
    let m2 = dealloc_step(m, ptr);

    // The accounting total covers the freed block.
    lemma_sum_live_remove(m.live, j);
    lemma_sum_live_nonneg(m.live.remove(j));
    assert(m2.total == m.total - item_of(c) - 8);
    assert(m2.live =~= m.live.remove(j));

    // The heads array holds values a link field can store.
    assert(0 <= m.heads[c] < 0x1_0000_0000) by {
        if m.heads[c] != 0 {
            assert(m.free_block_ok(c, 0));
        }
    }
    // The link write touches only the freed block's own header.
    lemma_le32_roundtrip(m.bytes, h, m.heads[c]);
    assert(forall|k: int|
        0 <= k < m.bytes.len() && !(h <= k < h + 4) ==> (#[trigger] m2.bytes[k]) == m.bytes[k]);

    // Live blocks.
    assert forall|k: int| 0 <= k < m2.live.len() implies m2.live_block_ok(
        #[trigger] m2.live[k],
    ) by {
        let ko = if k < j {
            k
        } else {
            k + 1
        };
        assert(m2.live[k] == m.live[ko]);
        assert(m.live_block_ok(m.live[ko]));
        assert(blocks_disjoint(m.live[ko], m.live[j]));
        lemma_item_of_bounds(m.live[ko].class);
    }

    // Free lists.
    assert forall|c2: int, jj: int|
        0 <= c2 < 22 && 0 <= jj < m2.free[c2].len() implies #[trigger] m2.free_block_ok(
        c2,
        jj,
    ) by {
        if c2 == c && h != 0 {
            if jj == 0 {
                assert(m2.free[c][0] == h);
                assert(le32_at(m2.bytes, h) == m.heads[c]);
                if m.free[c].len() > 0 {
                    assert(m2.free[c][1] == m.free[c][0]);
                }
            } else {
                assert(m2.free[c][jj] == m.free[c][jj - 1]);
                assert(m.free_block_ok(c, jj - 1));
                assert(blocks_disjoint(m.live[j], (Block { off: m.free[c][jj - 1], class: c })));
                lemma_item_of_bounds(c);
                if jj + 1 < m2.free[c].len() {
                    assert(m2.free[c][jj + 1] == m.free[c][jj]);
                }
            }
        } else {
            assert(m2.free[c2][jj] == m.free[c2][jj]);
            assert(m.free_block_ok(c2, jj));
            assert(blocks_disjoint(m.live[j], (Block { off: m.free[c2][jj], class: c2 })));
            lemma_item_of_bounds(c2);
        }
    }
    assert forall|c2: int| 0 <= c2 < 22 implies ((#[trigger] m2.heads[c2]) == 0 <==> m2.free[c2].len()
        == 0) by {}

    // Disjointness.
    assert forall|k: int, k2: int|
        0 <= k < m2.live.len() && 0 <= k2 < m2.live.len() && k != k2 implies blocks_disjoint(
        #[trigger] m2.live[k],
        #[trigger] m2.live[k2],
    ) by {
        let ko = if k < j {
            k
        } else {
            k + 1
        };
        let ko2 = if k2 < j {
            k2
        } else {
            k2 + 1
        };
        assert(m2.live[k] == m.live[ko]);
        assert(m2.live[k2] == m.live[ko2]);
        assert(blocks_disjoint(m.live[ko], m.live[ko2]));
    }
    assert forall|k: int, c2: int, mm: int|
        0 <= k < m2.live.len() && 0 <= c2 < 22 && 0 <= mm < m2.free[c2].len()
        implies blocks_disjoint(
        #[trigger] m2.live[k],
        (Block { off: #[trigger] m2.free[c2][mm], class: c2 }),
    ) by {
        let ko = if k < j {
            k
        } else {
            k + 1
        };
        assert(m2.live[k] == m.live[ko]);
        if c2 == c && h != 0 {
            if mm == 0 {
                assert(m2.free[c][0] == h);
                assert(blocks_disjoint(m.live[ko], m.live[j]));
            } else {
                assert(m2.free[c][mm] == m.free[c][mm - 1]);
                assert(blocks_disjoint(m.live[ko], (Block { off: m.free[c][mm - 1], class: c })));
            }
        } else {
            assert(m2.free[c2][mm] == m.free[c2][mm]);
            assert(blocks_disjoint(m.live[ko], (Block { off: m.free[c2][mm], class: c2 })));
        }
    }
    assert forall|c2: int, mm: int, c3: int, mm2: int|
        0 <= c2 < 22 && 0 <= mm < m2.free[c2].len() && 0 <= c3 < 22 && 0 <= mm2
            < m2.free[c3].len() && !(c2 == c3 && mm == mm2) implies blocks_disjoint(
        (Block { off: #[trigger] m2.free[c2][mm], class: c2 }),
        (Block { off: #[trigger] m2.free[c3][mm2], class: c3 }),
    ) by {
        let front2 = c2 == c && h != 0 && mm == 0;
        let front3 = c3 == c && h != 0 && mm2 == 0;
        let mo = if c2 == c && h != 0 {
            mm - 1
        } else {
            mm
        };
        let mo2 = if c3 == c && h != 0 {
            mm2 - 1
        } else {
            mm2
        };
        if front2 {
            assert(m2.free[c2][mm] == h);
            assert(blocks_disjoint(m.live[j], (Block { off: m.free[c3][mo2], class: c3 })));
        } else if front3 {
            assert(m2.free[c3][mm2] == h);
            assert(blocks_disjoint(m.live[j], (Block { off: m.free[c2][mo], class: c2 })));
        } else {
            assert(m2.free[c2][mm] == m.free[c2][mo]);
            assert(m2.free[c3][mm2] == m.free[c3][mo2]);
            assert(blocks_disjoint(
                (Block { off: m.free[c2][mo], class: c2 }),
                (Block { off: m.free[c3][mo2], class: c3 }),
            ));
        }
    }
}

/// `allocate` preserves the invariant, and on success hands out an 8-aligned
/// block whose header lies inside the buffer.
pub proof fn lemma_alloc_wf(m: Model, size: int)
    requires
        m.wf(),
        alloc_needs_bump(m, size) ==> m.bumper + 8 <= m.capacity,
    ensures
        alloc_step(m, size).wf(),
        alloc_fits(m, size) ==> 0 <= alloc_off(m, size) && alloc_off(m, size) % 8 == 0
            && alloc_off(m, size) + 8 <= m.capacity,
{
    if alloc_fits(m, size) {
        let c = class_of(size);
        lemma_class_of_bounds(size);
        if m.heads[c] != 0 {
            assert(m.free_block_ok(c, 0));
            lemma_alloc_wf_pop(m, size);
        } else {
            lemma_alloc_wf_bump(m, size);
        }
    }
}

} // verus!
