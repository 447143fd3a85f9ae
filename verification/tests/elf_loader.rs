use zulu_os::elf::{
    load, parse_elf, segment_type_from_u32, ElfSegmentType, LoadError, LOAD_TEXT_SECTION_AT,
};
use zulu_os::memory::{BootInfoFrameAllocator, MemoryRegion, MemoryRegionKind};
use zulu_os::paging::{AddressSpace, TranslateResult};

const PF_X: u32 = 1;
const PF_W: u32 = 2;
const PF_R: u32 = 4;

struct SegSpec {
    p_type: u32,
    p_flags: u32,
    p_vaddr: u64,
    p_memsz: u64,
    data: Vec<u8>,
}

fn put_le(bytes: &mut Vec<u8>, off: usize, value: u64, width: usize) {
    for k in 0..width {
        bytes[off + k] = ((value >> (8 * k)) & 0xff) as u8;
    }
}

/// Builds a minimal 64-bit little-endian ELF image: header, program
/// headers, then each segment's file bytes in order.
fn build_elf(entry: u64, segs: &[SegSpec]) -> Vec<u8> {
    let phnum = segs.len();
    let data_base = 64 + 56 * phnum;
    let total: usize = data_base + segs.iter().map(|s| s.data.len()).sum::<usize>();
    let mut bytes = vec![0u8; total];
    bytes[0] = 0x7f;
    bytes[1] = 0x45;
    bytes[2] = 0x4c;
    bytes[3] = 0x46;
    bytes[4] = 2; // 64-bit
    bytes[5] = 1; // little endian
    put_le(&mut bytes, 24, entry, 8);
    put_le(&mut bytes, 32, 64, 8); // e_phoff
    put_le(&mut bytes, 54, 56, 2); // e_phentsize
    put_le(&mut bytes, 56, phnum as u64, 2); // e_phnum
    let mut file_off = data_base;
    for (i, s) in segs.iter().enumerate() {
        let ph = 64 + 56 * i;
        put_le(&mut bytes, ph, s.p_type as u64, 4);
        put_le(&mut bytes, ph + 4, s.p_flags as u64, 4);
        put_le(&mut bytes, ph + 8, file_off as u64, 8);
        put_le(&mut bytes, ph + 16, s.p_vaddr, 8);
        put_le(&mut bytes, ph + 32, s.data.len() as u64, 8);
        put_le(&mut bytes, ph + 40, s.p_memsz, 8);
        put_le(&mut bytes, ph + 48, 0x1000, 8);
        bytes[file_off..file_off + s.data.len()].copy_from_slice(&s.data);
        file_off += s.data.len();
    }
    bytes
}

fn machine(frame_count: u64) -> (AddressSpace, BootInfoFrameAllocator) {
    let regions = vec![MemoryRegion {
        start: 0x10_0000,
        end: 0x10_0000 + frame_count * 0x1000,
        kind: MemoryRegionKind::Usable,
    }];
    (AddressSpace::new(), BootInfoFrameAllocator::init(regions))
}

#[test]
fn segment_type_values_decode() {
    assert_eq!(segment_type_from_u32(0), Some(ElfSegmentType::Null));
    assert_eq!(segment_type_from_u32(1), Some(ElfSegmentType::Load));
    assert_eq!(segment_type_from_u32(7), Some(ElfSegmentType::Tls));
    assert_eq!(segment_type_from_u32(0x6474e551), Some(ElfSegmentType::GnuStack));
    assert_eq!(segment_type_from_u32(0x12345678), None);
}

#[test]
fn parse_rejects_bad_magic() {
    let mut bytes = build_elf(0x400000, &[]);
    bytes[1] = b'Q';
    assert_eq!(parse_elf(&bytes).err(), Some(LoadError::BadHeader));
}

#[test]
fn parse_rejects_short_file() {
    let bytes = vec![0x7f, 0x45, 0x4c, 0x46];
    assert_eq!(parse_elf(&bytes).err(), Some(LoadError::BadHeader));
}

#[test]
fn parse_records_segments_and_flags() {
    let bytes = build_elf(
        0x400000,
        &[
            SegSpec {
                p_type: 1,
                p_flags: PF_R | PF_X,
                p_vaddr: 0x400000,
                p_memsz: 0x100,
                data: vec![0x90; 0x80],
            },
            SegSpec {
                p_type: 1,
                p_flags: PF_R | PF_W,
                p_vaddr: 0x401000,
                p_memsz: 0x200,
                data: vec![1, 2, 3],
            },
        ],
    );
    let elf = parse_elf(&bytes).unwrap();
    assert_eq!(elf.entry_point, 0x400000);
    assert_eq!(elf.segments.len(), 2);
    let text = &elf.segments[0];
    assert_eq!(text.ty, ElfSegmentType::Load);
    assert!(text.flags.present && text.flags.user_accessible);
    assert!(!text.flags.writable && !text.flags.no_execute);
    assert_eq!(text.addr.start, 0x400000);
    assert_eq!(text.addr.len, 0x100);
    assert_eq!(text.addr.original_start, 0x400000);
    assert_eq!(text.file_len, 0x80);
    let data = &elf.segments[1];
    assert!(data.flags.writable && data.flags.no_execute);
}

#[test]
fn parse_skips_unknown_null_and_empty_segments() {
    let bytes = build_elf(
        0x400000,
        &[
            SegSpec { p_type: 0x12345678, p_flags: PF_R, p_vaddr: 0, p_memsz: 0x10, data: vec![] },
            SegSpec { p_type: 0, p_flags: PF_R, p_vaddr: 0, p_memsz: 0x10, data: vec![] },
            SegSpec { p_type: 1, p_flags: PF_R, p_vaddr: 0x400000, p_memsz: 0, data: vec![] },
            SegSpec { p_type: 4, p_flags: PF_R, p_vaddr: 0x500000, p_memsz: 8, data: vec![] },
        ],
    );
    let elf = parse_elf(&bytes).unwrap();
    assert_eq!(elf.segments.len(), 1);
    assert_eq!(elf.segments[0].ty, ElfSegmentType::Note);
}

#[test]
fn entry_lands_on_fixed_text_address() {
    // The only text segment sits at V; the entry, also at V, must load at
    // V + (LOAD_TEXT_SECTION_AT - V), i.e. at the fixed address itself.
    let v = 0x1234_5000;
    let bytes = build_elf(
        v,
        &[SegSpec {
            p_type: 1,
            p_flags: PF_R | PF_X,
            p_vaddr: v,
            p_memsz: 0x10,
            data: vec![0xc3; 0x10],
        }],
    );
    let (mut space, mut alloc) = machine(16);
    let elf = load(&bytes, &mut space, &mut alloc).unwrap();
    assert_eq!(elf.entry_point, LOAD_TEXT_SECTION_AT);
    assert_eq!(elf.segments[0].addr.start, LOAD_TEXT_SECTION_AT);
    assert_eq!(elf.segments[0].addr.original_start, v);
}

#[test]
fn load_maps_copies_and_tightens() {
    let payload: Vec<u8> = b"Test print".to_vec();
    let bytes = build_elf(
        0x400000,
        &[SegSpec {
            p_type: 1,
            p_flags: PF_R | PF_X,
            p_vaddr: 0x400000,
            p_memsz: 0x10,
            data: payload.clone(),
        }],
    );
    let (mut space, mut alloc) = machine(16);
    load(&bytes, &mut space, &mut alloc).unwrap();
    match space.translate(LOAD_TEXT_SECTION_AT) {
        TranslateResult::Mapped { frame: _, flags } => {
            assert!(flags.present && flags.user_accessible);
            assert!(!flags.writable, "read-only text must be tightened after the copy");
            assert!(!flags.no_execute);
        }
        other => panic!("text page not mapped: {:?}", other),
    }
    assert_eq!(space.read_bytes(LOAD_TEXT_SECTION_AT, 10), payload);
}

#[test]
fn overlapping_write_and_exec_segments_share_page() {
    // A writable data segment and an executable text segment share the
    // same page: the page stays writable and execute wins over
    // no-execute.
    let bytes = build_elf(
        0x400000,
        &[
            SegSpec {
                p_type: 1,
                p_flags: PF_R | PF_X,
                p_vaddr: 0x400000,
                p_memsz: 0x10,
                data: vec![0xc3; 0x10],
            },
            SegSpec {
                p_type: 1,
                p_flags: PF_R | PF_W,
                p_vaddr: 0x400800,
                p_memsz: 0x10,
                data: vec![0xaa; 0x10],
            },
        ],
    );
    let (mut space, mut alloc) = machine(16);
    load(&bytes, &mut space, &mut alloc).unwrap();
    match space.translate(LOAD_TEXT_SECTION_AT) {
        TranslateResult::Mapped { frame: _, flags } => {
            assert!(flags.writable);
            assert!(!flags.no_execute);
        }
        other => panic!("page not mapped: {:?}", other),
    }
    assert_eq!(space.read_bytes(LOAD_TEXT_SECTION_AT + 0x800, 2), vec![0xaa, 0xaa]);
}

#[test]
fn data_segment_keeps_writable() {
    let bytes = build_elf(
        0x400000,
        &[
            SegSpec {
                p_type: 1,
                p_flags: PF_R | PF_X,
                p_vaddr: 0x400000,
                p_memsz: 0x10,
                data: vec![0xc3; 0x10],
            },
            SegSpec {
                p_type: 1,
                p_flags: PF_R | PF_W,
                p_vaddr: 0x402000,
                p_memsz: 0x10,
                data: vec![5; 0x10],
            },
        ],
    );
    let (mut space, mut alloc) = machine(16);
    load(&bytes, &mut space, &mut alloc).unwrap();
    match space.translate(LOAD_TEXT_SECTION_AT + 0x2000) {
        TranslateResult::Mapped { frame: _, flags } => {
            assert!(flags.writable && flags.no_execute);
        }
        other => panic!("data page not mapped: {:?}", other),
    }
}

#[test]
fn load_without_text_segment_fails() {
    let bytes = build_elf(
        0x400000,
        &[SegSpec {
            p_type: 1,
            p_flags: PF_R | PF_W,
            p_vaddr: 0x400000,
            p_memsz: 0x10,
            data: vec![0; 0x10],
        }],
    );
    let (mut space, mut alloc) = machine(16);
    assert_eq!(load(&bytes, &mut space, &mut alloc).err(), Some(LoadError::NoTextSegment));
}

#[test]
fn load_without_frames_fails() {
    let bytes = build_elf(
        0x400000,
        &[SegSpec {
            p_type: 1,
            p_flags: PF_R | PF_X,
            p_vaddr: 0x400000,
            p_memsz: 0x10,
            data: vec![0xc3; 0x10],
        }],
    );
    let (mut space, mut alloc) = machine(0);
    assert_eq!(load(&bytes, &mut space, &mut alloc).err(), Some(LoadError::FrameAllocationFailed));
}

#[test]
fn load_rejects_file_range_past_memory_size() {
    // p_filesz larger than p_memsz would scribble past the planned pages.
    let mut bytes = build_elf(
        0x400000,
        &[SegSpec {
            p_type: 1,
            p_flags: PF_R | PF_X,
            p_vaddr: 0x400000,
            p_memsz: 0x4,
            data: vec![0xc3; 0x10],
        }],
    );
    // Keep the header valid but inflate p_filesz beyond p_memsz.
    put_le(&mut bytes, 64 + 32, 0x10, 8);
    let (mut space, mut alloc) = machine(16);
    assert_eq!(load(&bytes, &mut space, &mut alloc).err(), Some(LoadError::BadSegmentBounds));
}
