//! The freeing-bump allocator.
//!
//! A [`Heap`] owns a byte buffer of fixed capacity and serves
//! [`allocate`](Heap::allocate) and [`deallocate`](Heap::deallocate) over it.
//! Each block carries an 8-byte header: one size-class byte and seven `0xFF`
//! sentinel bytes while the block is live, or a 4-byte little-endian link to
//! the next free block of its class while it is free. Handles are internal
//! offsets shifted by a caller-chosen, 8-aligned `ptr_offset`; 0 denotes
//! failure, which is unambiguous because no handle is below `ptr_offset + 8`.

use vstd::prelude::*;
use vstd::pervasive::VecAdditionalExecFns;
use vstd::arithmetic::power2::{lemma2_to64, lemma_pow2_unfold};
use crate::classes::{class_of, item_of, lemma_item_of_bounds, size_and_class,
    MAX_POSSIBLE_ALLOCATION};
use crate::model::{
    alloc_fits, alloc_needs_bump, alloc_off, alloc_result, alloc_step, dealloc_step, init_model,
    is_live_handle, le32_at, live_index, store_le32, Block, Model,
};
use crate::proofs::{
    lemma_alloc_wf, lemma_dealloc_wf, lemma_init_wf, lemma_live_offsets_distinct,
};

verus! {

/// A freeing-bump allocation heap.
pub struct Heap {
    /// Internal offsets (handle minus `ptr_offset`) of the live blocks,
    /// oldest first; mirrors the ghost live set.
    pub allocated_ptrs: Vec<u32>,
    /// Next unallocated offset of the bump region.
    pub bumper: u64,
    /// Free-list heads, one per size class; 0 marks an empty list.
    pub heads: Vec<u32>,
    /// The backing buffer.
    pub heap: Vec<u8>,
    /// Capacity of the backing buffer.
    pub max_heap_size: u64,
    /// Constant added to every returned handle; a multiple of 8.
    pub ptr_offset: u64,
    /// Accounted live bytes, headers included.
    pub total_size: u64,
    /// The live blocks, oldest first.
    pub live: Ghost<Seq<Block>>,
    /// The free lists, most recently freed block first.
    pub free: Ghost<Seq<Seq<int>>>,
}

impl View for Heap {
    type V = Model;

    open spec fn view(&self) -> Model {
        Model {
            bytes: self.heap@,
            heads: self.heads@.map_values(|v: u32| v as int),
            bumper: self.bumper as int,
            offset: self.ptr_offset as int,
            capacity: self.max_heap_size as int,
            total: self.total_size as int,
            live: self.live@,
            free: self.free@,
        }
    }
}

impl Heap {
    /// The representation invariant: the model is well formed and the ledger
    /// of live offsets mirrors the live blocks.
    pub open spec fn wf(self) -> bool {
        &&& self@.wf()
        &&& self.allocated_ptrs@.len() == self@.live.len()
        &&& forall|j: int|
            0 <= j < self@.live.len() ==> self.allocated_ptrs@[j] as int == (
            #[trigger] self@.live[j]).off + 8
    }

    /// Creates a new allocation heap which follows a freeing-bump strategy.
    /// The maximum size which can be allocated at once is 16 MiB.
    ///
    /// `ptr_offset` is added to every returned handle; it is rounded up to
    /// the next multiple of 8. `heap_size` is the capacity, in bytes, of the
    /// backing buffer.
    pub fn new(ptr_offset: u32, heap_size: u32) -> (r: Heap)
        ensures
            r.wf(),
            r@ == init_model(ptr_offset as int, heap_size as int),
    {
        let mut offset: u64 = ptr_offset as u64;
        let padding = offset % 8;
        if padding != 0 {
            offset = offset + 8 - padding;
        }
        let size: usize = heap_size as usize;
        let mut buf: Vec<u8> = Vec::new();
        while buf.len() < size
            invariant
                buf@.len() <= size,
                forall|i: int| 0 <= i < buf@.len() ==> buf@[i] == 0u8,
            decreases size - buf@.len(),
        {
            buf.push(0u8);
        }
        let mut heads: Vec<u32> = Vec::new();
        while heads.len() < 22
            invariant
                heads@.len() <= 22,
                forall|i: int| 0 <= i < heads@.len() ==> heads@[i] == 0u32,
            decreases 22 - heads@.len(),
        {
            heads.push(0u32);
        }
        let r = Heap {
            allocated_ptrs: Vec::new(),
            bumper: 0,
            heads,
            heap: buf,
            max_heap_size: heap_size as u64,
            ptr_offset: offset,
            total_size: 0,
            live: Ghost(Seq::empty()),
            free: Ghost(Seq::new(22, |i: int| Seq::<int>::empty())),
        };
        proof {
            lemma_init_wf(ptr_offset as int, heap_size as int);
            assert(r@ =~~= init_model(ptr_offset as int, heap_size as int));
        }
        r
    }

    /// Takes the requested number of bytes and returns a handle, or 0 when
    /// the request exceeds 16 MiB or the accounted bytes leave no room.
    /// A successful handle is 8-aligned past `ptr_offset`, comes from the
    /// head of its class's free list when that list is nonempty, and leaves
    /// the seven sentinel bytes in place before its payload.
    pub fn allocate(&mut self, size: u32) -> (ptr: u32)
        requires
            old(self).wf(),
            alloc_needs_bump(old(self)@, size as int) ==> old(self)@.bumper + 8 <= old(
                self,
            )@.capacity,
            alloc_fits(old(self)@, size as int) ==> old(self)@.offset + alloc_off(
                old(self)@,
                size as int,
            ) + 8 <= 0xFFFF_FFFF,
        ensures
            final(self).wf(),
            final(self)@ == alloc_step(old(self)@, size as int),
            ptr as int == alloc_result(old(self)@, size as int),
            ptr == 0 <==> !alloc_fits(old(self)@, size as int),
            ptr != 0 ==> (ptr as int - old(self)@.offset) % 8 == 0 && ptr as int - old(
                self,
            )@.offset >= 8,
            ptr != 0 && old(self)@.heads[class_of(size as int)] != 0 ==> ptr as int == old(
                self,
            )@.offset + old(self)@.heads[class_of(size as int)] + 8,
            ptr != 0 ==> forall|k: int|
                ptr as int - old(self)@.offset - 8 < k < ptr as int - old(self)@.offset
                    ==> final(self)@.bytes[k] == 255u8,
    {
        let ghost m0 = self@;
        proof {
            lemma_alloc_wf(m0, size as int);
        }
        if size > MAX_POSSIBLE_ALLOCATION as u32 {
            return 0;
        }
        let (item_size, list_index) = size_and_class(size);
        proof {
            lemma_item_of_bounds(list_index as int);
        }
        if item_size + 8 + self.total_size > self.max_heap_size {
            return 0;
        }
        let head = self.heads[list_index];
        let h_u64: u64;
        if head != 0 {
            proof {
                assert(m0.free[list_index as int].len() > 0);
                assert(m0.free_block_ok(list_index as int, 0));
            }
            let next = Self::le_bytes_to_u32(&self.heap, head as usize);
            self.heads.set(list_index, next);
            h_u64 = head as u64;
        } else {
            h_u64 = self.bump(item_size + 8);
        }
        let h_usize = h_u64 as usize;
        self.heap.set(h_usize, list_index as u8);
        self.heap.set(h_usize + 1, 255);
        self.heap.set(h_usize + 2, 255);
        self.heap.set(h_usize + 3, 255);
        self.heap.set(h_usize + 4, 255);
        self.heap.set(h_usize + 5, 255);
        self.heap.set(h_usize + 6, 255);
        self.heap.set(h_usize + 7, 255);
        self.total_size = self.total_size + item_size + 8;
        self.allocated_ptrs.push((h_u64 + 8) as u32);
        self.live = Ghost(m0.live.push(Block { off: h_u64 as int, class: list_index as int }));
        if head != 0 {
            self.free = Ghost(
                m0.free.update(list_index as int, m0.free[list_index as int].drop_first()),
            );
        }
        proof {
            assert(self@ =~~= alloc_step(m0, size as int));
        }
        (self.ptr_offset + h_u64 + 8) as u32
    }

    /// Returns the block behind a handle previously produced by `allocate`
    /// on this heap to the free list of its class: the block becomes the
    /// list's head, and the accounted total drops by its item size plus the
    /// 8-byte header.
    pub fn deallocate(&mut self, ptr: u32)
        requires
            old(self).wf(),
            is_live_handle(old(self)@, ptr as int),
        ensures
            final(self).wf(),
            final(self)@ == dealloc_step(old(self)@, ptr as int),
            final(self)@.heads[old(self)@.bytes[ptr as int - old(self)@.offset - 8] as int]
                == ptr as int - old(self)@.offset - 8,
            final(self)@.total == old(self)@.total - item_of(
                old(self)@.bytes[ptr as int - old(self)@.offset - 8] as int,
            ) - 8,
    {
        let ghost m0 = self@;
        let ghost jj = live_index(m0, ptr as int);
        proof {
            lemma_dealloc_wf(m0, ptr as int);
            assert(m0.live_block_ok(m0.live[jj]));
        }
        let p_int: u64 = ptr as u64 - self.ptr_offset;
        let mut j: usize = 0;
        while self.allocated_ptrs[j] as u64 != p_int
            invariant
                self == old(self),
                0 <= j <= self.allocated_ptrs.len(),
                exists|k: int|
                    j <= k < self.allocated_ptrs@.len()
                        && (#[trigger] self.allocated_ptrs@[k]) as u64 == p_int,
            decreases self.allocated_ptrs@.len() - j,
        {
            j = j + 1;
        }
        proof {
            if j as int != jj {
                lemma_live_offsets_distinct(m0, j as int, jj);
            }
            assert(j as int == jj);
        }
        let h_u64: u64 = p_int - 8;
        let h_usize: usize = h_u64 as usize;
        let list_index: usize = self.heap[h_usize] as usize;
        let item_size: u64 = Self::get_item_size_from_index(list_index) as u64;
        let tail = self.heads[list_index];
        self.heads.set(list_index, h_u64 as u32);
        Self::write_u32_into_le_bytes(tail, &mut self.heap, h_usize);
        self.allocated_ptrs.remove(j);
        self.total_size = if self.total_size >= item_size + 8 {
            self.total_size - (item_size + 8)
        } else {
            0
        };
        self.live = Ghost(m0.live.remove(jj));
        self.free = Ghost(
            if h_u64 == 0 {
                m0.free.update(list_index as int, Seq::<int>::empty())
            } else {
                m0.free.update(list_index as int, seq![h_u64 as int] + m0.free[list_index as int])
            },
        );
        proof {
            assert(self@ =~~= dealloc_step(m0, ptr as int));
        }
    }

    /// Whether `ptr` is a handle of a currently live block of this heap.
    pub fn is_live(&self, ptr: u32) -> (r: bool)
        requires
            self.wf(),
        ensures
            r == is_live_handle(self@, ptr as int),
    {
        if (ptr as u64) < self.ptr_offset + 8 {
            proof {
                if is_live_handle(self@, ptr as int) {
                    let jw = live_index(self@, ptr as int);
                    assert(self@.live_block_ok(self@.live[jw]));
                }
            }
            return false;
        }
        let target: u64 = ptr as u64 - self.ptr_offset;
        let mut j: usize = 0;
        while j < self.allocated_ptrs.len()
            invariant
                self.wf(),
                target as int == ptr as int - self@.offset,
                0 <= j <= self.allocated_ptrs@.len(),
                forall|k: int|
                    0 <= k < j ==> (#[trigger] self.allocated_ptrs@[k]) as u64 != target,
            decreases self.allocated_ptrs@.len() - j,
        {
            if self.allocated_ptrs[j] as u64 == target {
                proof {
                    assert(target as int == ptr as int - self@.offset);
                    assert(self.allocated_ptrs@[j as int] as int == self@.live[j as int].off + 8);
                    assert(self@.live[j as int].off == ptr as int - self@.offset - 8);
                }
                return true;
            }
            j = j + 1;
        }
        proof {
            if is_live_handle(self@, ptr as int) {
                let jw = live_index(self@, ptr as int);
                assert(0 <= jw < self@.live.len() && self@.live[jw].off == ptr as int - self@.offset
                    - 8);
                assert(self.allocated_ptrs@[jw] as u64 == target);
            }
        }
        false
    }

    /// Advances the bump cursor by `n` bytes and returns its old value.
    fn bump(&mut self, n: u64) -> (r: u64)
        requires
            old(self).bumper + n <= u64::MAX,
        ensures
            r == old(self).bumper,
            final(self).bumper == old(self).bumper + n,
            final(self).allocated_ptrs == old(self).allocated_ptrs,
            final(self).heads == old(self).heads,
            final(self).heap == old(self).heap,
            final(self).max_heap_size == old(self).max_heap_size,
            final(self).ptr_offset == old(self).ptr_offset,
            final(self).total_size == old(self).total_size,
            final(self).live == old(self).live,
            final(self).free == old(self).free,
    {
        let res = self.bumper;
        self.bumper = self.bumper + n;
        res
    }

    /// Reads the little-endian 32-bit value stored at `at`.
    fn le_bytes_to_u32(slice: &Vec<u8>, at: usize) -> (r: u32)
        requires
            at + 4 <= slice.len(),
        ensures
            r as int == le32_at(slice@, at as int),
    {
        let b0 = slice[at] as u32;
        let b1 = slice[at + 1] as u32;
        let b2 = slice[at + 2] as u32;
        let b3 = slice[at + 3] as u32;
        b0 + 256 * b1 + 65536 * b2 + 16777216 * b3
    }

    /// Writes `bytes` at offset `at` as a little-endian 32-bit value.
    pub fn write_u32_into_le_bytes(bytes: u32, slice: &mut Vec<u8>, at: usize)
        requires
            at + 4 <= old(slice).len(),
        ensures
            final(slice)@ == store_le32(old(slice)@, at as int, bytes as int),
    {
        slice.set(at, (bytes % 256) as u8);
        slice.set(at + 1, ((bytes / 256) % 256) as u8);
        slice.set(at + 2, ((bytes / 65536) % 256) as u8);
        slice.set(at + 3, ((bytes / 16777216) % 256) as u8);
    }

    /// The item size of size class `index`: 8 bytes shifted up `index` times.
    pub fn get_item_size_from_index(index: usize) -> (r: usize)
        requires
            index < 22,
        ensures
            r as int == item_of(index as int),
    {
        proof {
            lemma2_to64();
        }
        let mut r: usize = 8;
        let mut i: usize = 0;
        while i < index
            invariant
                i <= index,
                index < 22,
                r as int == item_of(i as int),
            decreases index - i,
        {
            proof {
                lemma_item_of_bounds(i as int);
                lemma_pow2_unfold((i + 4) as nat);
            }
            r = r * 2;
            i = i + 1;
        }
        r
    }
}

} // verus!
