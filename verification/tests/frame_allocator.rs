use zulu_os::memory::{BootInfoFrameAllocator, MemoryRegion, MemoryRegionKind};

fn region(start: u64, end: u64, kind: MemoryRegionKind) -> MemoryRegion {
    MemoryRegion { start, end, kind }
}

fn boot_map() -> Vec<MemoryRegion> {
    vec![
        region(0x1000, 0x3000, MemoryRegionKind::Usable),
        region(0x3000, 0x5000, MemoryRegionKind::Other),
        region(0x5000, 0x6000, MemoryRegionKind::Usable),
    ]
}

#[test]
fn init_starts_at_zero() {
    let a = BootInfoFrameAllocator::init(boot_map());
    assert_eq!(a.next, 0);
    assert_eq!(a.last_phys_addr, 0);
}

#[test]
fn frames_come_in_map_order_skipping_reserved() {
    let mut a = BootInfoFrameAllocator::init(boot_map());
    assert_eq!(a.allocate_frame(), Some(0x1000));
    assert_eq!(a.allocate_frame(), Some(0x2000));
    assert_eq!(a.allocate_frame(), Some(0x5000));
    assert_eq!(a.allocate_frame(), None);
    assert_eq!(a.allocate_frame(), None);
}

#[test]
fn unaligned_region_yields_page_bases() {
    let mut a = BootInfoFrameAllocator::init(vec![region(
        0x1800,
        0x2800,
        MemoryRegionKind::Usable,
    )]);
    assert_eq!(a.allocate_frame(), Some(0x1000));
    assert_eq!(a.allocate_frame(), None);
}

#[test]
fn deallocate_last_frame_is_reused() {
    let mut a = BootInfoFrameAllocator::init(boot_map());
    let f1 = a.allocate_frame().unwrap();
    let f2 = a.allocate_frame().unwrap();
    a.deallocate_frame(f2);
    assert_eq!(a.allocate_frame(), Some(f2));
    assert_ne!(f1, f2);
}

#[test]
fn deallocate_other_frame_is_noop() {
    let mut a = BootInfoFrameAllocator::init(boot_map());
    let f1 = a.allocate_frame().unwrap();
    let _f2 = a.allocate_frame().unwrap();
    let next_before = a.next;
    a.deallocate_frame(f1);
    assert_eq!(a.next, next_before);
}

#[test]
fn deallocate_before_any_allocation_is_noop() {
    let mut a = BootInfoFrameAllocator::init(boot_map());
    a.deallocate_frame(0);
    assert_eq!(a.next, 0);
    assert_eq!(a.allocate_frame(), Some(0x1000));
}
