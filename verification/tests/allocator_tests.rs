use alilu_os::allocator::{FixedSizeBlockAllocator, HEAP_SIZE};

#[test]
fn class_blocks_are_carved_in_order() {
    let mut a = FixedSizeBlockAllocator::new();
    a.init(0x1000, HEAP_SIZE);
    assert_eq!(a.allocate(24, 8), 0x1000);
    assert_eq!(a.allocate(24, 8), 0x1020);
    assert_eq!(a.allocate(1, 1), 0x1040);
    assert_eq!(a.allocate(100, 64), 0x1080);
}

#[test]
fn freed_blocks_come_back_first() {
    let mut a = FixedSizeBlockAllocator::new();
    a.init(0x1000, HEAP_SIZE);
    let p = a.allocate(24, 8);
    let q = a.allocate(24, 8);
    a.deallocate(p, 24, 8);
    a.deallocate(q, 32, 4);
    assert_eq!(a.allocate(30, 4), q);
    assert_eq!(a.allocate(17, 16), p);
    assert_eq!(a.allocate(24, 8), 0x1040);
}

#[test]
fn large_requests_use_regions() {
    let mut a = FixedSizeBlockAllocator::new();
    a.init(0x1000, HEAP_SIZE);
    assert_eq!(a.allocate(8, 8), 0x1000);
    assert_eq!(a.allocate(4096, 4096), 0x2000);
    assert_eq!(a.allocate(3000, 8), 0x3000);
    a.deallocate(0x2000, 4096, 4096);
    assert_eq!(a.allocate(4000, 8), 0x2000);
}

#[test]
fn exhausted_heap_answers_zero() {
    let mut a = FixedSizeBlockAllocator::new();
    a.init(0x1000, 64);
    assert_eq!(a.allocate(100, 8), 0);
    assert_eq!(a.allocate(2048, 8), 0);
    assert_eq!(a.allocate(32, 8), 0x1000);
    assert_eq!(a.allocate(32, 8), 0x1020);
    assert_eq!(a.allocate(8, 8), 0);
}

#[test]
fn unsafe_requests_are_detected() {
    let mut a = FixedSizeBlockAllocator::new();
    a.init(0xFFFF_FFFF_FFFF_F000, 0x800);
    assert!(!a.allocation_safe(4096, 4096));
    assert!(a.allocation_safe(8, 8));
    let mut b = FixedSizeBlockAllocator::new();
    b.init(0x1000, 4096);
    assert!(b.allocation_safe(3001, 8));
    assert!(b.allocation_safe(3000, 8));
    assert!(b.allocation_safe(4096, 8));
}

#[test]
fn unaligned_large_request_keeps_rest_aligned() {
    let mut a = FixedSizeBlockAllocator::new();
    a.init(0x1000, HEAP_SIZE);
    assert_eq!(a.allocate(3001, 8), 0x1000);
    assert_eq!(a.allocate(3000, 8), 0x1BC0);
    assert_eq!(a.allocate(24, 8), 0x2780);
}
