use freeing_bump::classes::MAX_POSSIBLE_ALLOCATION;
use freeing_bump::heap::Heap;

#[test]
fn should_allocate_properly() {
    // given
    let heap_size: u32 = 64;
    let offset: u32 = 0;
    let mut heap = Heap::new(offset, heap_size);

    // when
    let ptr = heap.allocate(1);

    // then
    assert_eq!(ptr, 8);
}

#[test]
fn should_always_align_pointers_to_multiples_of_8() {
    // given
    let heap_size: u32 = 64;
    let odd_offset: u32 = 13;
    let mut heap = Heap::new(odd_offset, heap_size);

    // when
    let ptr = heap.allocate(1);

    // then
    // the pointer must start at the next multiple of 8 from 13
    // + the prefix of 8 bytes.
    assert_eq!(ptr, 24);
}

#[test]
fn should_increment_pointers_properly() {
    // given
    let heap_size: u32 = 64;
    let offset: u32 = 0;
    let mut heap = Heap::new(offset, heap_size);

    // when
    let ptr1 = heap.allocate(1);
    let ptr2 = heap.allocate(9);
    let ptr3 = heap.allocate(1);

    // then
    // a prefix of 8 bytes is prepended to each pointer
    assert_eq!(ptr1, 8);

    // the prefix of 8 bytes + the content of ptr1 padded to the lowest possible
    // item size of 8 bytes + the prefix of ptr1
    assert_eq!(ptr2, 24);

    // ptr2 + its content of 16 bytes + the prefix of 8 bytes
    assert_eq!(ptr3, 24 + 16 + 8);
}

#[test]
fn should_free_properly() {
    // given
    let heap_size: u32 = 64;
    let offset: u32 = 0;
    let mut heap = Heap::new(offset, heap_size);
    let ptr1 = heap.allocate(1);
    // the prefix of 8 bytes is prepended to the pointer
    assert_eq!(ptr1, 8);

    let ptr2 = heap.allocate(1);
    // the prefix of 8 bytes + the content of ptr 1 is prepended to the pointer
    assert_eq!(ptr2, 24);

    // when
    heap.deallocate(ptr2);

    // then
    // then the heads table should contain a pointer to the
    // prefix of ptr2 in the leftmost entry
    assert_eq!(heap.heads[0], ptr2 - 8);
}

#[test]
fn should_deallocate_and_reallocate_properly() {
    // given
    let heap_size: u32 = 64;
    let offset: u32 = 13;
    let padded_offset: u32 = 16;
    let mut heap = Heap::new(offset, heap_size);

    let ptr1 = heap.allocate(1);
    // the prefix of 8 bytes is prepended to the pointer
    assert_eq!(ptr1, padded_offset + 8);

    let ptr2 = heap.allocate(9);
    // the padded_offset + the previously allocated ptr (8 bytes prefix +
    // 8 bytes content) + the prefix of 8 bytes which is prepended to the
    // current pointer
    assert_eq!(ptr2, padded_offset + 16 + 8);

    // when
    heap.deallocate(ptr2);
    let ptr3 = heap.allocate(9);

    // then
    // should have re-allocated
    assert_eq!(ptr3, padded_offset + 16 + 8);
    assert_eq!(heap.heads, [0u32; 22]);
}

#[test]
fn should_build_linked_list_of_free_areas_properly() {
    // given
    let heap_size: u32 = 128;
    let mut heap = Heap::new(0, heap_size);

    let ptr1 = heap.allocate(8);
    let ptr2 = heap.allocate(8);
    let ptr3 = heap.allocate(8);

    // when
    heap.deallocate(ptr1);
    heap.deallocate(ptr2);
    heap.deallocate(ptr3);

    // then
    let mut expected = [0u32; 22];
    expected[0] = ptr3 - 8;
    assert_eq!(heap.heads, expected);

    let ptr4 = heap.allocate(8);
    assert_eq!(ptr4, ptr3);

    expected[0] = ptr2 - 8;
    assert_eq!(heap.heads, expected);
}

#[test]
fn should_not_allocate_if_too_large() {
    // given
    let heap_size: u32 = 64;
    let offset: u32 = 13;
    let mut heap = Heap::new(offset, heap_size);

    // when
    // next possible item size for 42 is 64, which is > heap_size
    let ptr = heap.allocate(42);

    // then
    assert_eq!(ptr, 0);
}

#[test]
fn should_not_allocate_if_full() {
    // given
    let heap_size: u32 = 16;
    let offset: u32 = 0;
    let mut heap = Heap::new(offset, heap_size);
    let ptr1 = heap.allocate(8);
    assert_eq!(ptr1, 8);

    // when
    let ptr2 = heap.allocate(8);

    // then
    assert_eq!(ptr2, 0);
}

#[test]
fn should_allocate_max_possible_allocation_size() {
    // given
    let heap_size: u32 = (2 * MAX_POSSIBLE_ALLOCATION) as u32;
    let offset: u32 = 0;
    let mut heap = Heap::new(offset, heap_size);

    // when
    let ptr = heap.allocate(MAX_POSSIBLE_ALLOCATION as u32);

    // then
    assert_eq!(ptr, 8);
}

#[test]
fn should_not_allocate_if_requested_size_too_large() {
    // given
    let heap_size: u32 = (2 * MAX_POSSIBLE_ALLOCATION) as u32;
    let offset: u32 = 0;
    let mut heap = Heap::new(offset, heap_size);

    // when
    let ptr = heap.allocate(MAX_POSSIBLE_ALLOCATION as u32 + 1);

    // then
    assert_eq!(ptr, 0);
}

#[test]
fn should_include_prefixes_in_total_heap_size() {
    // given
    let heap_size: u32 = 64;
    let mut heap = Heap::new(1, heap_size);

    // when
    // an item size of 16 must be used then
    heap.allocate(9);

    // then
    assert_eq!(heap.total_size, 8 + 16);
}

#[test]
fn should_calculate_total_heap_size_to_zero() {
    // given
    let heap_size: u32 = 128;
    let offset: u32 = 13;
    let mut heap = Heap::new(offset, heap_size);

    // when
    let ptr = heap.allocate(42);
    assert_eq!(ptr, 16 + 8);
    heap.deallocate(ptr);

    // then
    assert_eq!(heap.total_size, 0);
}

#[test]
fn should_calculate_total_size_of_zero() {
    // given
    let heap_size: u32 = 128;
    let offset: u32 = 9;
    let mut heap = Heap::new(offset, heap_size);

    // when
    for _ in 1..10 {
        let ptr = heap.allocate(42);
        heap.deallocate(ptr);
    }

    // then
    assert_eq!(heap.total_size, 0);
}

#[test]
fn should_write_u32_correctly_into_le() {
    // given
    let mut heap = vec![0u8; 5];

    // when
    Heap::write_u32_into_le_bytes(1, &mut heap, 0);

    // then
    assert_eq!(heap, [1, 0, 0, 0, 0]);
}

#[test]
fn should_write_u32_max_correctly_into_le() {
    // given
    let mut heap = vec![0u8; 5];

    // when
    Heap::write_u32_into_le_bytes(u32::MAX, &mut heap, 0);

    // then
    assert_eq!(heap, [255, 255, 255, 255, 0]);
}

#[test]
fn should_get_item_size_from_index() {
    // given
    let index: usize = 0;

    // when
    let item_size = Heap::get_item_size_from_index(index);

    // then
    assert_eq!(item_size, 8);
}

#[test]
fn should_get_max_item_size_from_index() {
    // given
    let index: usize = 21;

    // when
    let item_size = Heap::get_item_size_from_index(index);

    // then
    assert_eq!(item_size, MAX_POSSIBLE_ALLOCATION);
}
