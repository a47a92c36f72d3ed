use freeing_bump::heap::Heap;

#[test]
fn handles_are_aligned_past_the_offset() {
    let mut heap = Heap::new(13, 256);
    let padded_offset: u32 = 16;
    let mut handles = Vec::new();
    handles.push(heap.allocate(1));
    handles.push(heap.allocate(9));
    handles.push(heap.allocate(17));
    handles.push(heap.allocate(3));
    for &h in &handles {
        assert!(h != 0);
        assert!((h - padded_offset) % 8 == 0);
        assert!(h - padded_offset >= 8);
    }
}

#[test]
fn live_handles_are_distinct() {
    let mut heap = Heap::new(0, 256);
    let a = heap.allocate(8);
    let b = heap.allocate(8);
    let c = heap.allocate(16);
    heap.deallocate(b);
    let d = heap.allocate(8);
    assert_ne!(a, c);
    assert_ne!(a, d);
    assert_ne!(c, d);
}

#[test]
fn total_size_accounts_headers_of_all_live_blocks() {
    let mut heap = Heap::new(0, 256);
    let a = heap.allocate(1); // item 8 -> 16 accounted
    let _b = heap.allocate(9); // item 16 -> 24 accounted
    let _c = heap.allocate(32); // item 32 -> 40 accounted
    assert_eq!(heap.total_size, 16 + 24 + 40);
    heap.deallocate(a);
    assert_eq!(heap.total_size, 24 + 40);
}

#[test]
fn reuse_is_lifo_within_a_class() {
    let mut heap = Heap::new(0, 256);
    let _keep = heap.allocate(8);
    let a = heap.allocate(8);
    let b = heap.allocate(8);
    heap.deallocate(a);
    heap.deallocate(b);
    // b was freed last, so it comes back first
    assert_eq!(heap.allocate(8), b);
    assert_eq!(heap.allocate(8), a);
}

#[test]
fn sentinel_bytes_stand_after_allocation() {
    let mut heap = Heap::new(0, 64);
    let ptr = heap.allocate(1);
    let h = (ptr - 8) as usize;
    assert_eq!(heap.heap[h], 0); // class byte of the smallest class
    for i in 1..8 {
        assert_eq!(heap.heap[h + i], 255);
    }
}

#[test]
fn free_then_allocate_round_trips() {
    let mut heap = Heap::new(0, 128);
    let _first = heap.allocate(24);
    let ptr = heap.allocate(24);
    heap.deallocate(ptr);
    assert_eq!(heap.allocate(24), ptr);
}

#[test]
fn zero_sized_request_gets_a_smallest_class_block() {
    let mut heap = Heap::new(0, 64);
    let ptr = heap.allocate(0);
    assert_eq!(ptr, 8);
    assert_eq!(heap.total_size, 16);
}

#[test]
fn free_list_links_are_little_endian() {
    let mut heap = Heap::new(0, 256);
    let _keep = heap.allocate(8);
    let a = heap.allocate(8);
    let b = heap.allocate(8);
    heap.deallocate(a);
    heap.deallocate(b);
    // the block of b links back to the block of a
    let hb = (b - 8) as usize;
    let ha = a - 8;
    assert_eq!(heap.heap[hb], (ha % 256) as u8);
    assert_eq!(heap.heap[hb + 1], ((ha / 256) % 256) as u8);
    assert_eq!(heap.heap[hb + 2], 0);
    assert_eq!(heap.heap[hb + 3], 0);
}

#[test]
fn is_live_follows_the_block_lifecycle() {
    let mut heap = Heap::new(0, 64);
    assert!(!heap.is_live(8));
    let ptr = heap.allocate(1);
    assert!(heap.is_live(ptr));
    assert!(!heap.is_live(0));
    heap.deallocate(ptr);
    assert!(!heap.is_live(ptr));
}

#[test]
fn failed_allocation_changes_nothing() {
    let mut heap = Heap::new(0, 64);
    let a = heap.allocate(1);
    let before_total = heap.total_size;
    assert_eq!(heap.allocate(64), 0); // item 64 + header 8 + 16 live > 64
    assert_eq!(heap.total_size, before_total);
    assert_eq!(heap.heads, [0u32; 22]);
    assert!(heap.is_live(a));
}
