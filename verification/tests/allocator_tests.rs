use titan_os::allocator::bump::BumpAllocator;
use titan_os::allocator::fixed_size::FixedSizeBlockAllocator;
use titan_os::allocator::linked_list::LinkedListAllocator;
use titan_os::allocator::{align_up, AllocError, GlobalHeap, StrategyKind, HEAP_SIZE, HEAP_START};

#[test]
fn align_up_values() {
    assert_eq!(align_up(0, 1), 0);
    assert_eq!(align_up(5, 8), 8);
    assert_eq!(align_up(8, 8), 8);
    assert_eq!(align_up(9, 8), 16);
    assert_eq!(align_up(4096, 4096), 4096);
    assert_eq!(align_up(4097, 4096), 8192);
}

#[test]
fn bump_allocates_in_order() {
    let mut a = BumpAllocator::new();
    a.init(0x1000, 4096);
    let first = a.allocate(100, 8).unwrap();
    assert_eq!(first, 0x1000);
    let second = a.allocate(50, 8).unwrap();
    // 0x1000 + 100 = 4196, rounded up to the next multiple of 8.
    assert_eq!(second, 4200);
    assert_eq!(second % 8, 0);
    assert!(second >= 0x1000 && second + 50 <= 0x1000 + 4096);
}

#[test]
fn bump_cursor_returns_to_start_after_all_frees() {
    let mut a = BumpAllocator::new();
    a.init(0x1000, 4096);
    let p1 = a.allocate(100, 8).unwrap();
    let p2 = a.allocate(200, 8).unwrap();
    let p3 = a.allocate(300, 8).unwrap();
    // Free in an order different from allocation.
    a.deallocate(p2, 200, 8);
    a.deallocate(p1, 100, 8);
    a.deallocate(p3, 300, 8);
    // The cursor is back at the heap start: the next allocation reuses it.
    assert_eq!(a.allocate(16, 1).unwrap(), 0x1000);
}

#[test]
fn bump_exhaustion() {
    let mut a = BumpAllocator::new();
    a.init(0x1000, 4096);
    assert_eq!(a.allocate(4096, 1), Ok(0x1000));
    assert_eq!(a.allocate(4096, 1), Err(AllocError::OutOfMemory));
    // A smaller request still fails: the cursor sits at the end.
    assert_eq!(a.allocate(1, 1), Err(AllocError::OutOfMemory));
}

#[test]
fn free_list_first_fit_and_split() {
    let mut a = LinkedListAllocator::new();
    a.init(4096, 4096);
    let first = a.allocate(100, 8).unwrap();
    assert_eq!(first, 4096);
    let second = a.allocate(100, 8).unwrap();
    // 100 bytes round up to 104 to keep the block alignment.
    assert_eq!(second, 4200);
    // One free block remains: the tail of the heap.
    assert_eq!(a.free.len(), 1);
    assert_eq!(a.free[0].addr, 4304);
    assert_eq!(a.free[0].size, 4096 + 4096 - 4304);
}

#[test]
fn free_list_hole_reappears_after_free() {
    let mut a = LinkedListAllocator::new();
    a.init(4096, 4096);
    let first = a.allocate(100, 8).unwrap();
    let second = a.allocate(100, 8).unwrap();
    a.deallocate(first, 100, 8);
    // A free block reappears between the heap start and the second
    // allocation, big enough for the freed 100 bytes.
    assert_eq!(a.free.len(), 2);
    assert_eq!(a.free[0].addr, 4096);
    assert_eq!(a.free[0].size, 104);
    assert!(a.free[0].addr + a.free[0].size <= second);
    // The next allocation of the same size reuses exactly that hole.
    assert_eq!(a.allocate(100, 8).unwrap(), first);
}

#[test]
fn free_list_coalesces_forward() {
    let mut a = LinkedListAllocator::new();
    a.init(4096, 4096);
    let p1 = a.allocate(2000, 8).unwrap();
    let p2 = a.allocate(2088, 8).unwrap();
    assert_eq!(p1, 4096);
    assert_eq!(p2, 6096);
    assert_eq!(a.free.len(), 0);
    a.deallocate(p1, 2000, 8);
    a.deallocate(p2, 2088, 8);
    // Freeing both halves, first half first, leaves one block spanning
    // both (8 bytes at the very end were wasted padding below the minimum
    // block size and are gone for good).
    assert_eq!(a.free.len(), 1);
    assert_eq!(a.free[0].addr, 4096);
    assert_eq!(a.free[0].size, 2000 + 2088);
}

#[test]
fn free_list_coalesces_backward() {
    let mut a = LinkedListAllocator::new();
    a.init(4096, 4096);
    let p1 = a.allocate(2000, 8).unwrap();
    let p2 = a.allocate(2088, 8).unwrap();
    a.deallocate(p2, 2088, 8);
    a.deallocate(p1, 2000, 8);
    // The other order gives the same single block.
    assert_eq!(a.free.len(), 1);
    assert_eq!(a.free[0].addr, 4096);
    assert_eq!(a.free[0].size, 2000 + 2088);
}

#[test]
fn free_list_coalesces_both_sides() {
    let mut a = LinkedListAllocator::new();
    a.init(4096, 4096);
    let p1 = a.allocate(1000, 8).unwrap();
    let p2 = a.allocate(1000, 8).unwrap();
    let p3 = a.allocate(1000, 8).unwrap();
    a.deallocate(p1, 1000, 8);
    a.deallocate(p3, 1000, 8);
    // Freeing the middle block merges with both neighbours and the heap
    // tail at once.
    a.deallocate(p2, 1000, 8);
    assert_eq!(a.free.len(), 1);
    assert_eq!(a.free[0].addr, 4096);
    assert_eq!(a.free[0].size, 4096);
}

#[test]
fn free_list_exhaustion() {
    let mut a = LinkedListAllocator::new();
    a.init(4096, 4096);
    assert_eq!(a.allocate(4096, 1), Ok(4096));
    assert_eq!(a.allocate(4096, 1), Err(AllocError::OutOfMemory));
}

#[test]
fn free_list_alignment_padding() {
    let mut a = LinkedListAllocator::new();
    a.init(4096, 8192);
    // Take 8 bytes so the remaining free block starts at 4112, which is
    // not 4096-aligned.
    let p1 = a.allocate(8, 8).unwrap();
    assert_eq!(p1, 4096);
    let p2 = a.allocate(64, 4096).unwrap();
    assert_eq!(p2, 8192);
    assert_eq!(p2 % 4096, 0);
    // The padding between 4112 and 8192 stays available as its own block.
    assert_eq!(a.allocate(1024, 8).unwrap(), 4112);
}

#[test]
fn size_class_serves_from_class_and_reuses_address() {
    let mut a = FixedSizeBlockAllocator::new();
    a.init(4096, 4096);
    // A 20-byte request is served from the 32-byte class.
    let p1 = a.allocate(20, 8).unwrap();
    assert_eq!(p1, 4096);
    assert_eq!(p1 % 32, 0);
    a.deallocate(p1, 20, 8);
    // The class list now holds the freed node; the next 20-byte request
    // returns the same address without touching the fallback.
    let p2 = a.allocate(20, 8).unwrap();
    assert_eq!(p2, p1);
    // The fallback has handed out exactly one 32-byte block: its next
    // block starts right after it.
    let big = a.allocate(2056, 8).unwrap();
    assert_eq!(big, 4096 + 32);
}

#[test]
fn size_class_loop_never_exhausts() {
    let mut a = FixedSizeBlockAllocator::new();
    a.init(4096, 4096);
    // One 64-byte object lives at a time: the heap's class capacity is
    // never exceeded, so no iteration may fail.
    for _ in 0..10_000 {
        let p = a.allocate(64, 8).expect("allocation must not fail");
        assert_eq!(p % 64, 0);
        a.deallocate(p, 64, 8);
    }
}

#[test]
fn size_class_large_requests_use_fallback() {
    let mut a = FixedSizeBlockAllocator::new();
    a.init(4096, 8192);
    let p = a.allocate(3000, 8).unwrap();
    assert_eq!(p, 4096);
    a.deallocate(p, 3000, 8);
    // The block went back to the free-list allocator and coalesced, so the
    // full heap is available again.
    assert_eq!(a.fallback.free.len(), 1);
    assert_eq!(a.fallback.free[0].addr, 4096);
    assert_eq!(a.fallback.free[0].size, 8192);
}

#[test]
fn size_class_exhaustion() {
    let mut a = FixedSizeBlockAllocator::new();
    a.init(4096, 4096);
    assert_eq!(a.allocate(4096, 1), Ok(4096));
    assert_eq!(a.allocate(4096, 1), Err(AllocError::OutOfMemory));
}

#[test]
fn global_heap_bump_strategy() {
    let mut h = GlobalHeap::new();
    h.init(StrategyKind::Bump, 4096, 4096);
    let p = h.allocate(100, 8).unwrap();
    assert_eq!(p, 4096);
    h.deallocate(p, 100, 8);
    assert_eq!(h.allocate(4096, 1), Ok(4096));
    assert_eq!(h.allocate(1, 1), Err(AllocError::OutOfMemory));
}

#[test]
fn global_heap_free_list_strategy() {
    let mut h = GlobalHeap::new();
    h.init(StrategyKind::LinkedList, 4096, 4096);
    let p1 = h.allocate(100, 8).unwrap();
    let p2 = h.allocate(100, 8).unwrap();
    assert_eq!(p1, 4096);
    assert_eq!(p2, 4200);
    h.deallocate(p1, 100, 8);
    assert_eq!(h.allocate(100, 8), Ok(p1));
}

#[test]
fn global_heap_fixed_size_strategy() {
    let mut h = GlobalHeap::new();
    h.init(StrategyKind::FixedSize, 4096, 4096);
    let p = h.allocate(20, 8).unwrap();
    h.deallocate(p, 20, 8);
    assert_eq!(h.allocate(20, 8), Ok(p));
}

#[test]
fn global_heap_exhaustion_whatever_strategy() {
    for kind in [StrategyKind::Bump, StrategyKind::LinkedList, StrategyKind::FixedSize] {
        let mut h = GlobalHeap::new();
        h.init(kind, 4096, 4096);
        assert!(h.allocate(4096, 1).is_ok());
        assert_eq!(h.allocate(4096, 1), Err(AllocError::OutOfMemory));
    }
}

#[test]
fn configured_heap_size_is_page_multiple() {
    assert_eq!(HEAP_SIZE % 4096, 0);
}

#[test]
fn many_boxes() {
    // One small object lives at a time; even a pass over the whole heap
    // size worth of allocations never exhausts the heap.
    let mut h = GlobalHeap::new();
    h.init(StrategyKind::FixedSize, HEAP_START as usize, HEAP_SIZE);
    for _ in 0..HEAP_SIZE {
        let x = h.allocate(8, 8).expect("allocation must not fail");
        h.deallocate(x, 8, 8);
    }
}

#[test]
fn many_boxes_long_lived() {
    let mut h = GlobalHeap::new();
    h.init(StrategyKind::FixedSize, HEAP_START as usize, HEAP_SIZE);
    let long_lived = h.allocate(8, 8).unwrap();
    for _ in 0..HEAP_SIZE {
        let x = h.allocate(8, 8).expect("allocation must not fail");
        assert_ne!(x, long_lived);
        h.deallocate(x, 8, 8);
    }
    h.deallocate(long_lived, 8, 8);
}
