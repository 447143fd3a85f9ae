use zulu_os::flags::PageTableFlags;
use zulu_os::paging::{AddressSpace, FlagUpdateError, MapToError, TranslateResult, UnmapError};

fn rw_flags() -> PageTableFlags {
    PageTableFlags { present: true, writable: true, user_accessible: false, no_execute: false }
}

#[test]
fn translate_unmapped() {
    let space = AddressSpace::new();
    assert_eq!(space.translate(0x1234), TranslateResult::NotMapped);
}

#[test]
fn map_then_translate() {
    let mut space = AddressSpace::new();
    space.map_to(0x4000, 0x9000, rw_flags()).unwrap();
    assert_eq!(
        space.translate(0x4abc),
        TranslateResult::Mapped { frame: 0x9000, flags: rw_flags() }
    );
    assert_eq!(space.translate(0x5000), TranslateResult::NotMapped);
}

#[test]
fn map_twice_fails() {
    let mut space = AddressSpace::new();
    space.map_to(0x4000, 0x9000, rw_flags()).unwrap();
    assert_eq!(space.map_to(0x4000, 0xa000, rw_flags()), Err(MapToError::PageAlreadyMapped));
}

#[test]
fn update_flags_changes_translation() {
    let mut space = AddressSpace::new();
    space.map_to(0x4000, 0x9000, rw_flags()).unwrap();
    let ro = PageTableFlags { writable: false, ..rw_flags() };
    space.update_flags(0x4000, ro).unwrap();
    assert_eq!(space.translate(0x4000), TranslateResult::Mapped { frame: 0x9000, flags: ro });
}

#[test]
fn update_flags_unmapped_fails() {
    let mut space = AddressSpace::new();
    assert_eq!(space.update_flags(0x4000, rw_flags()), Err(FlagUpdateError::PageNotMapped));
}

#[test]
fn unmap_returns_frame() {
    let mut space = AddressSpace::new();
    space.map_to(0x4000, 0x9000, rw_flags()).unwrap();
    assert_eq!(space.unmap(0x4000), Ok(0x9000));
    assert_eq!(space.translate(0x4000), TranslateResult::NotMapped);
    assert_eq!(space.unmap(0x4000), Err(UnmapError::PageNotMapped));
}

#[test]
fn write_and_read_bytes_across_page_boundary() {
    let mut space = AddressSpace::new();
    space.map_to(0x4000, 0x9000, rw_flags()).unwrap();
    space.map_to(0x5000, 0xa000, rw_flags()).unwrap();
    let data: Vec<u8> = vec![1, 2, 3, 4, 5, 6];
    space.write_bytes(0x4ffd, &data);
    assert_eq!(space.read_bytes(0x4ffd, 6), data);
    assert_eq!(space.read_byte(0x5002), 6);
}

#[test]
fn write_bytes_leaves_rest_alone() {
    let mut space = AddressSpace::new();
    space.map_to(0x4000, 0x9000, rw_flags()).unwrap();
    let a: Vec<u8> = vec![7; 16];
    space.write_bytes(0x4000, &a);
    let b: Vec<u8> = vec![9];
    space.write_bytes(0x4004, &b);
    assert_eq!(space.read_bytes(0x4000, 6), vec![7, 7, 7, 7, 9, 7]);
}
