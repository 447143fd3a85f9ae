use zulu_os::addr::align_up;
use zulu_os::allocator::BumpAllocator;

#[test]
fn bump_new_is_empty() {
    let b = BumpAllocator::new();
    assert_eq!(b.heap_start, 0);
    assert_eq!(b.heap_end, 0);
    assert_eq!(b.next, 0);
}

#[test]
fn bump_init_sets_bounds() {
    let mut b = BumpAllocator::new();
    b.init(0x1000, 0x2000);
    assert_eq!(b.heap_start, 0x1000);
    assert_eq!(b.heap_end, 0x3000);
    assert_eq!(b.next, 0x1000);
}

#[test]
fn bump_alloc_advances_by_aligned_size() {
    let mut b = BumpAllocator::new();
    b.init(0x1000, 0x1000);
    let p = b.allocate(10, 8);
    assert_eq!(p, 0x1000);
    assert_eq!(b.next, 0x1010);
    let q = b.allocate(1, 16);
    assert_eq!(q, 0x1010);
    assert_eq!(b.next, 0x1020);
}

#[test]
fn bump_alloc_rounds_next_up_to_alignment() {
    let mut b = BumpAllocator::new();
    b.init(0x1000, 0x1000);
    let _ = b.allocate(1, 1);
    assert_eq!(b.next, 0x1001);
    let p = b.allocate(8, 8);
    assert_eq!(p, 0x1008);
    assert_eq!(b.next, 0x1010);
}

#[test]
fn bump_alloc_returns_null_when_full() {
    let mut b = BumpAllocator::new();
    b.init(0x1000, 0x100);
    let p = b.allocate(0x200, 8);
    assert_eq!(p, 0);
    assert_eq!(b.next, 0x1000);
}

#[test]
fn bump_invariant_after_operations() {
    let mut b = BumpAllocator::new();
    b.init(0x1000, 0x100);
    assert!(b.heap_start <= b.next && b.next <= b.heap_end);
    let p = b.allocate(0x40, 8);
    assert!(b.heap_start <= b.next && b.next <= b.heap_end);
    b.deallocate(p, 0x40, 8);
    assert!(b.heap_start <= b.next && b.next <= b.heap_end);
    let _ = b.allocate(0x1000, 8);
    assert!(b.heap_start <= b.next && b.next <= b.heap_end);
}

#[test]
fn bump_dealloc_restores_topmost() {
    let mut b = BumpAllocator::new();
    b.init(0x1000, 0x1000);
    let before = b.next;
    let p = b.allocate(24, 8);
    b.deallocate(p, 24, 8);
    assert_eq!(b.next, before);
}

#[test]
fn bump_dealloc_ignores_non_topmost() {
    let mut b = BumpAllocator::new();
    b.init(0x1000, 0x1000);
    let p1 = b.allocate(24, 8);
    let _p2 = b.allocate(24, 8);
    let next_before = b.next;
    b.deallocate(p1, 24, 8);
    assert_eq!(b.next, next_before);
}

#[test]
fn bump_reuses_freed_top_allocation() {
    let mut b = BumpAllocator::new();
    b.init(0x1000, 0x1000);
    let _a = b.allocate(24, 8);
    let _b = b.allocate(24, 8);
    let c = b.allocate(24, 8);
    b.deallocate(c, 24, 8);
    let d = b.allocate(24, 8);
    assert_eq!(d, c);
}

#[test]
fn align_up_values() {
    assert_eq!(align_up(5, 8), Some(8));
    assert_eq!(align_up(8, 8), Some(8));
    assert_eq!(align_up(0, 16), Some(0));
    assert_eq!(align_up(17, 1), Some(17));
    assert_eq!(align_up(u64::MAX, 2), None);
}
