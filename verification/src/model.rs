//! The mathematical model of the allocator.
//!
//! A [`Model`] records everything the allocator's behaviour depends on: the
//! buffer contents, the free-list heads, the bump cursor, the accounting
//! total, and — as ghost bookkeeping — the live blocks and the per-class free
//! lists. [`alloc_step`]/[`alloc_result`] and [`dealloc_step`] give the exact
//! transition each operation performs, and [`Model::wf`] is the invariant
//! every reachable state satisfies.

use vstd::prelude::*;
use crate::classes::{class_of, item_of};

verus! {

/// A live allocation: the internal offset of its block header and its size
/// class.
pub struct Block {
    pub off: int,
    pub class: int,
}

/// The abstract state of a heap.
#[verifier::ext_equal]
pub struct Model {
    /// Contents of the backing buffer.
    pub bytes: Seq<u8>,
    /// Free-list heads, one per class; 0 marks an empty list.
    pub heads: Seq<int>,
    /// Next unallocated offset of the bump region.
    pub bumper: int,
    /// Constant added to every returned handle.
    pub offset: int,
    /// Capacity of the backing buffer.
    pub capacity: int,
    /// Accounted live bytes, headers included.
    pub total: int,
    /// Live blocks, oldest first.
    pub live: Seq<Block>,
    /// Free lists, most recently freed block first.
    pub free: Seq<Seq<int>>,
}

/// The little-endian 32-bit value stored at `at`.
pub open spec fn le32_at(bytes: Seq<u8>, at: int) -> int {
    bytes[at] + 256 * bytes[at + 1] + 65536 * bytes[at + 2] + 16777216 * bytes[at + 3]
}

/// The buffer after the four little-endian bytes of `v` are written at `at`.
pub open spec fn store_le32(bytes: Seq<u8>, at: int, v: int) -> Seq<u8> {
    bytes.update(at, (v % 256) as u8).update(at + 1, ((v / 256) % 256) as u8).update(
        at + 2,
        ((v / 65536) % 256) as u8,
    ).update(at + 3, ((v / 16777216) % 256) as u8)
}

/// The buffer after a live-block header is written at `at`: the class byte,
/// then seven sentinel bytes.
pub open spec fn store_header(bytes: Seq<u8>, at: int, class: int) -> Seq<u8> {
    bytes.update(at, class as u8).update(at + 1, 255u8).update(at + 2, 255u8).update(
        at + 3,
        255u8,
    ).update(at + 4, 255u8).update(at + 5, 255u8).update(at + 6, 255u8).update(at + 7, 255u8)
}

/// Bytes accounted to the live blocks of `s`: the item size plus the 8-byte
/// header of each.
pub open spec fn sum_live(s: Seq<Block>) -> int
    decreases s.len(),
{
    if s.len() == 0 {
        0
    } else {
        sum_live(s.drop_last()) + item_of(s.last().class) + 8
    }
}

/// Two blocks occupy disjoint byte ranges.
pub open spec fn blocks_disjoint(b1: Block, b2: Block) -> bool {
    b1.off + 8 + item_of(b1.class) <= b2.off || b2.off + 8 + item_of(b2.class) <= b1.off
}

impl Model {
    /// What holds of every live block: it lies inside the bump region with
    /// its header inside the buffer, and its header carries the class byte
    /// followed by seven sentinel bytes.
    pub open spec fn live_block_ok(self, b: Block) -> bool {
        &&& 0 <= b.off
        &&& b.off % 8 == 0
        &&& 0 <= b.class < 22
        &&& b.off + 8 <= self.capacity
        &&& b.off + 8 + item_of(b.class) <= self.bumper
        &&& self.bytes[b.off] == b.class as u8
        &&& forall|k: int| b.off < k < b.off + 8 ==> self.bytes[k] == 255u8
    }

    /// What holds of entry `j` of free list `c`: the block lies inside the
    /// bump region, and its first four bytes link to the next entry (0 at the
    /// end of the list).
    pub open spec fn free_block_ok(self, c: int, j: int) -> bool {
        let h = self.free[c][j];
        &&& 0 < h
        &&& h % 8 == 0
        &&& h + 8 <= self.capacity
        &&& h + 8 + item_of(c) <= self.bumper
        &&& le32_at(self.bytes, h) == (if j + 1 < self.free[c].len() {
            self.free[c][j + 1]
        } else {
            0
        })
    }

    /// The free lists match the heads array and their inline links.
    pub open spec fn free_wf(self) -> bool {
        &&& forall|c: int|
            0 <= c < 22 ==> ((#[trigger] self.heads[c]) == 0 <==> self.free[c].len() == 0)
        &&& forall|c: int|
            0 <= c < 22 && self.free[c].len() > 0 ==> (#[trigger] self.free[c])[0]
                == self.heads[c]
        &&& forall|c: int, j: int|
            0 <= c < 22 && 0 <= j < self.free[c].len() ==> #[trigger] self.free_block_ok(c, j)
    }

    /// No two tracked blocks — live or free — overlap.
    pub open spec fn disjoint_ok(self) -> bool {
        &&& forall|j: int, k: int|
            0 <= j < self.live.len() && 0 <= k < self.live.len() && j != k ==> blocks_disjoint(
                #[trigger] self.live[j],
                #[trigger] self.live[k],
            )
        &&& forall|j: int, c: int, m: int|
            0 <= j < self.live.len() && 0 <= c < 22 && 0 <= m < self.free[c].len()
                ==> blocks_disjoint(
                #[trigger] self.live[j],
                (Block { off: #[trigger] self.free[c][m], class: c }),
            )
        &&& forall|c: int, m: int, c2: int, m2: int|
            0 <= c < 22 && 0 <= m < self.free[c].len() && 0 <= c2 < 22 && 0 <= m2
                < self.free[c2].len() && !(c == c2 && m == m2) ==> blocks_disjoint(
                (Block { off: #[trigger] self.free[c][m], class: c }),
                (Block { off: #[trigger] self.free[c2][m2], class: c2 }),
            )
    }

    /// The invariant of every reachable state.
    pub open spec fn wf(self) -> bool {
        &&& self.heads.len() == 22
        &&& self.free.len() == 22
        &&& self.capacity == self.bytes.len()
        &&& self.capacity <= 0xFFFF_FFFF
        &&& self.offset % 8 == 0
        &&& 0 <= self.offset <= 0x1_0000_0000
        &&& self.bumper % 8 == 0
        &&& 0 <= self.bumper <= self.capacity + 0x1000000
        &&& 0 <= self.total <= self.capacity
        &&& self.total == sum_live(self.live)
        &&& forall|j: int| 0 <= j < self.live.len() ==> self.live_block_ok(#[trigger] self.live[j])
        &&& self.free_wf()
        &&& self.disjoint_ok()
    }
}

/// The handle under which the caller knows live block `j`.
pub open spec fn live_handle(m: Model, j: int) -> int {
    m.offset + m.live[j].off + 8
}

/// Whether `ptr` is a handle of a live block of `m`.
pub open spec fn is_live_handle(m: Model, ptr: int) -> bool {
    exists|j: int| 0 <= j < m.live.len() && (#[trigger] m.live[j]).off == ptr - m.offset - 8
}

/// The index of the live block that `ptr` names.
pub open spec fn live_index(m: Model, ptr: int) -> int {
    choose|j: int| 0 <= j < m.live.len() && (#[trigger] m.live[j]).off == ptr - m.offset - 8
}

/// `allocate(size)` succeeds iff the size is allowed and the accounted bytes
/// leave room for the item and its header.
pub open spec fn alloc_fits(m: Model, size: int) -> bool {
    &&& size <= 0x1000000
    &&& item_of(class_of(size)) + 8 + m.total <= m.capacity
}

/// A successful `allocate(size)` takes the bump path: its class's free list
/// is empty.
pub open spec fn alloc_needs_bump(m: Model, size: int) -> bool {
    alloc_fits(m, size) && m.heads[class_of(size)] == 0
}

/// The internal offset of the block that a successful `allocate(size)` hands
/// out: the head of its class's free list, or the bump cursor.
pub open spec fn alloc_off(m: Model, size: int) -> int {
    if m.heads[class_of(size)] != 0 {
        m.heads[class_of(size)]
    } else {
        m.bumper
    }
}

/// The handle `allocate(size)` returns; 0 denotes failure.
pub open spec fn alloc_result(m: Model, size: int) -> int {
    if alloc_fits(m, size) {
        m.offset + alloc_off(m, size) + 8
    } else {
        0
    }
}

/// The state after `allocate(size)`.
pub open spec fn alloc_step(m: Model, size: int) -> Model {
    if !alloc_fits(m, size) {
        m
    } else {
        let c = class_of(size);
        let h = alloc_off(m, size);
        let popped = m.heads[c] != 0;
        Model {
            bytes: store_header(m.bytes, h, c),
            heads: if popped {
                m.heads.update(c, le32_at(m.bytes, h))
            } else {
                m.heads
            },
            bumper: if popped {
                m.bumper
            } else {
                m.bumper + item_of(c) + 8
            },
            offset: m.offset,
            capacity: m.capacity,
            total: m.total + item_of(c) + 8,
            live: m.live.push(Block { off: h, class: c }),
            free: if popped {
                m.free.update(c, m.free[c].drop_first())
            } else {
                m.free
            },
        }
    }
}

/// The state after `deallocate(ptr)`. The freed block is pushed on the front
/// of its class's free list; the accounting total saturates at 0. A block at
/// internal offset 0 cannot be linked into a list — 0 is the empty-list
/// marker — so freeing it resets its class's list and leaks any blocks that
/// were on it.
pub open spec fn dealloc_step(m: Model, ptr: int) -> Model {
    let h = ptr - m.offset - 8;
    let c = m.bytes[h] as int;
    Model {
        bytes: store_le32(m.bytes, h, m.heads[c]),
        heads: m.heads.update(c, h),
        bumper: m.bumper,
        offset: m.offset,
        capacity: m.capacity,
        total: if m.total >= item_of(c) + 8 {
            m.total - item_of(c) - 8
        } else {
            0
        },
        live: m.live.remove(live_index(m, ptr)),
        free: if h != 0 {
            m.free.update(c, seq![h] + m.free[c])
        } else {
            m.free.update(c, Seq::<int>::empty())
        },
    }
}

/// `ptr_offset` rounded up to the next multiple of 8.
pub open spec fn round_up8(x: int) -> int {
    if x % 8 == 0 {
        x
    } else {
        x + 8 - x % 8
    }
}

/// The state `new(ptr_offset, heap_size)` constructs: a zeroed buffer, empty
/// free lists, and the bump cursor at 0.
pub open spec fn init_model(ptr_offset: int, heap_size: int) -> Model {
    Model {
        bytes: Seq::new(heap_size as nat, |i: int| 0u8),
        heads: Seq::new(22, |i: int| 0),
        bumper: 0,
        offset: round_up8(ptr_offset),
        capacity: heap_size,
        total: 0,
        live: Seq::<Block>::empty(),
        free: Seq::new(22, |i: int| Seq::<int>::empty()),
    }
}

} // verus!
