//! The ELF loader: parsing a 64-bit little-endian executable's program
//! headers, relocating it by a fixed displacement, planning page flags
//! across overlapping segments, mapping and filling the pages, and
//! tightening permissions after the copy.

use vstd::prelude::*;

use crate::addr::{spec_page_base, PAGE_SIZE};
use crate::flags::PageTableFlags;
use crate::memory::BootInfoFrameAllocator;
use crate::paging::AddressSpace;

verus! {

/// The text segment is always placed here, so an external debugger can be
/// pointed at a known address.
pub const LOAD_TEXT_SECTION_AT: u64 = 0x660000;

/// Program-header segment kinds this loader recognizes.
#[derive(Clone, Copy, Debug, PartialEq, Eq, Structural)]
pub enum ElfSegmentType {
    Null,
    Load,
    Dynamic,
    Interp,
    Note,
    Shlib,
    Phdr,
    Tls,
    Loos,
    GnuEhFrame,
    GnuStack,
    GnuRelo,
    Hios,
    Loproc,
    Hiproc,
}

/// The segment kind a `p_type` value decodes to, if any.
pub open spec fn spec_segment_type_from_u32(v: u32) -> Option<ElfSegmentType> {
    if v == 0 {
        Some(ElfSegmentType::Null)
    } else if v == 1 {
        Some(ElfSegmentType::Load)
    } else if v == 2 {
        Some(ElfSegmentType::Dynamic)
    } else if v == 3 {
        Some(ElfSegmentType::Interp)
    } else if v == 4 {
        Some(ElfSegmentType::Note)
    } else if v == 5 {
        Some(ElfSegmentType::Shlib)
    } else if v == 6 {
        Some(ElfSegmentType::Phdr)
    } else if v == 7 {
        Some(ElfSegmentType::Tls)
    } else if v == 0x60000000 {
        Some(ElfSegmentType::Loos)
    } else if v == 0x6474e550 {
        Some(ElfSegmentType::GnuEhFrame)
    } else if v == 0x6474e551 {
        Some(ElfSegmentType::GnuStack)
    } else if v == 0x6474e552 {
        Some(ElfSegmentType::GnuRelo)
    } else if v == 0x6fffffff {
        Some(ElfSegmentType::Hios)
    } else if v == 0x70000000 {
        Some(ElfSegmentType::Loproc)
    } else if v == 0x7fffffff {
        Some(ElfSegmentType::Hiproc)
    } else {
        None
    }
}

/// Decodes a `p_type` value; unknown kinds are skipped by the loader.
pub fn segment_type_from_u32(v: u32) -> (r: Option<ElfSegmentType>)
    ensures
        r == spec_segment_type_from_u32(v),
{
    if v == 0 {
        Some(ElfSegmentType::Null)
    } else if v == 1 {
        Some(ElfSegmentType::Load)
    } else if v == 2 {
        Some(ElfSegmentType::Dynamic)
    } else if v == 3 {
        Some(ElfSegmentType::Interp)
    } else if v == 4 {
        Some(ElfSegmentType::Note)
    } else if v == 5 {
        Some(ElfSegmentType::Shlib)
    } else if v == 6 {
        Some(ElfSegmentType::Phdr)
    } else if v == 7 {
        Some(ElfSegmentType::Tls)
    } else if v == 0x60000000 {
        Some(ElfSegmentType::Loos)
    } else if v == 0x6474e550 {
        Some(ElfSegmentType::GnuEhFrame)
    } else if v == 0x6474e551 {
        Some(ElfSegmentType::GnuStack)
    } else if v == 0x6474e552 {
        Some(ElfSegmentType::GnuRelo)
    } else if v == 0x6fffffff {
        Some(ElfSegmentType::Hios)
    } else if v == 0x70000000 {
        Some(ElfSegmentType::Loproc)
    } else if v == 0x7fffffff {
        Some(ElfSegmentType::Hiproc)
    } else {
        None
    }
}

/// Where a segment lands in virtual memory.
#[derive(Clone, Copy, Debug, PartialEq, Eq, Structural)]
pub struct VirtualMapDestination {
    /// Virtual address where the segment will be mapped. Starts equal to
    /// `original_start` and moves when the file is relocated.
    pub start: u64,
    /// Length of the destination in bytes (the segment's memory size).
    pub len: u64,
    /// The virtual address the file asked for.
    pub original_start: u64,
}

/// One recorded program-header segment.
#[derive(Clone, Copy, Debug, PartialEq, Eq, Structural)]
pub struct ElfSegment {
    pub ty: ElfSegmentType,
    pub align: u64,
    pub flags: PageTableFlags,
    /// Offset into the file where the segment's bytes start.
    pub file_start: u64,
    /// Number of file bytes backing the segment.
    pub file_len: u64,
    pub addr: VirtualMapDestination,
}

/// A parsed executable: its recorded segments and entry point.
pub struct ElfFile {
    pub segments: Vec<ElfSegment>,
    pub entry_point: u64,
}

/// Little-endian 16-bit value at `off`.
pub open spec fn le16(b: Seq<u8>, off: int) -> int {
    b[off] + b[off + 1] * 0x100
}

/// Little-endian 32-bit value at `off`.
pub open spec fn le32(b: Seq<u8>, off: int) -> int {
    b[off] + b[off + 1] * 0x100 + b[off + 2] * 0x1_0000 + b[off + 3] * 0x100_0000
}

/// Little-endian 64-bit value at `off`.
pub open spec fn le64(b: Seq<u8>, off: int) -> int {
    le32(b, off) + le32(b, off + 4) * 0x1_0000_0000
}

/// Reads a little-endian 16-bit value.
pub fn read_le16(bytes: &Vec<u8>, off: usize) -> (r: u16)
    requires
        off + 2 <= bytes@.len(),
    ensures
        r == le16(bytes@, off as int),
{
    let n = bytes.len();
    bytes[off] as u16 + (bytes[off + 1] as u16) * 0x100
}

/// Reads a little-endian 32-bit value.
pub fn read_le32(bytes: &Vec<u8>, off: usize) -> (r: u32)
    requires
        off + 4 <= bytes@.len(),
    ensures
        r == le32(bytes@, off as int),
{
    let n = bytes.len();
    bytes[off] as u32 + (bytes[off + 1] as u32) * 0x100 + (bytes[off + 2] as u32) * 0x1_0000 + (
    bytes[off + 3] as u32) * 0x100_0000
}

/// Reads a little-endian 64-bit value.
pub fn read_le64(bytes: &Vec<u8>, off: usize) -> (r: u64)
    requires
        off + 8 <= bytes@.len(),
    ensures
        r == le64(bytes@, off as int),
{
    let n = bytes.len();
    let lo = read_le32(bytes, off) as u64;
    let hi = read_le32(bytes, off + 4) as u64;
    lo + hi * 0x1_0000_0000
}

/// The page flags a program header's `p_flags` yields: readable segments
/// become user-accessible, writable segments writable, and a segment
/// without the execute bit is mapped no-execute.
pub open spec fn spec_flags_from_pf(f: u32) -> PageTableFlags {
    PageTableFlags {
        present: true,
        writable: f & 2 != 0,
        user_accessible: f & 4 != 0,
        no_execute: f & 1 == 0,
    }
}

/// Derives page flags from a program header's `p_flags`.
pub fn flags_from_pf(f: u32) -> (r: PageTableFlags)
    ensures
        r == spec_flags_from_pf(f),
{
    PageTableFlags {
        present: true,
        writable: f & 2 != 0,
        user_accessible: f & 4 != 0,
        no_execute: f & 1 == 0,
    }
}

/// The file's header is a well-formed 64-bit little-endian ELF header
/// whose program-header table lies within the file: the magic, the
/// 64-bit class, the little-endian encoding, the standard 56-byte header
/// entries, and the table bounds.
pub open spec fn header_ok(b: Seq<u8>) -> bool {
    &&& b.len() >= 64
    &&& b[0] == 0x7f
    &&& b[1] == 0x45
    &&& b[2] == 0x4c
    &&& b[3] == 0x46
    &&& b[4] == 2
    &&& b[5] == 1
    &&& le16(b, 54) == 56
    &&& le64(b, 32) + le16(b, 56) * 56 <= b.len()
}

/// The file's entry point (`e_entry`).
pub open spec fn spec_entry(b: Seq<u8>) -> int {
    le64(b, 24)
}

/// Offset of the program-header table (`e_phoff`).
pub open spec fn spec_phoff(b: Seq<u8>) -> int {
    le64(b, 32)
}

/// Number of program headers (`e_phnum`).
pub open spec fn spec_phnum(b: Seq<u8>) -> int {
    le16(b, 56)
}

/// Offset of the `i`-th program header.
pub open spec fn phdr_base(b: Seq<u8>, i: int) -> int {
    spec_phoff(b) + i * 56
}

/// `p_type` of the `i`-th program header.
pub open spec fn ph_type(b: Seq<u8>, i: int) -> int {
    le32(b, phdr_base(b, i))
}

/// `p_flags` of the `i`-th program header.
pub open spec fn ph_flags(b: Seq<u8>, i: int) -> int {
    le32(b, phdr_base(b, i) + 4)
}

/// `p_offset` of the `i`-th program header.
pub open spec fn ph_offset(b: Seq<u8>, i: int) -> int {
    le64(b, phdr_base(b, i) + 8)
}

/// `p_vaddr` of the `i`-th program header.
pub open spec fn ph_vaddr(b: Seq<u8>, i: int) -> int {
    le64(b, phdr_base(b, i) + 16)
}

/// `p_filesz` of the `i`-th program header.
pub open spec fn ph_filesz(b: Seq<u8>, i: int) -> int {
    le64(b, phdr_base(b, i) + 32)
}

/// `p_memsz` of the `i`-th program header.
pub open spec fn ph_memsz(b: Seq<u8>, i: int) -> int {
    le64(b, phdr_base(b, i) + 40)
}

/// `p_align` of the `i`-th program header.
pub open spec fn ph_align(b: Seq<u8>, i: int) -> int {
    le64(b, phdr_base(b, i) + 48)
}

/// Whether the loader records the `i`-th program header: its kind must
/// decode, not be the null kind, and the segment must occupy memory.
pub open spec fn keeps_phdr(b: Seq<u8>, i: int) -> bool {
    &&& spec_segment_type_from_u32(ph_type(b, i) as u32) is Some
    &&& spec_segment_type_from_u32(ph_type(b, i) as u32) != Some(ElfSegmentType::Null)
    &&& ph_memsz(b, i) != 0
}

/// The segment record of the `i`-th program header.
pub open spec fn spec_segment_of(b: Seq<u8>, i: int) -> ElfSegment {
    ElfSegment {
        ty: spec_segment_type_from_u32(ph_type(b, i) as u32)->Some_0,
        align: ph_align(b, i) as u64,
        flags: spec_flags_from_pf(ph_flags(b, i) as u32),
        file_start: ph_offset(b, i) as u64,
        file_len: ph_filesz(b, i) as u64,
        addr: VirtualMapDestination {
            start: ph_vaddr(b, i) as u64,
            len: ph_memsz(b, i) as u64,
            original_start: ph_vaddr(b, i) as u64,
        },
    }
}

/// The segments recorded from the first `n` program headers, in table
/// order.
pub open spec fn spec_segments_upto(b: Seq<u8>, n: int) -> Seq<ElfSegment>
    decreases n,
{
    if n <= 0 {
        Seq::empty()
    } else if keeps_phdr(b, n - 1) {
        spec_segments_upto(b, n - 1).push(spec_segment_of(b, n - 1))
    } else {
        spec_segments_upto(b, n - 1)
    }
}

/// All segments the loader records from the file.
pub open spec fn spec_segments(b: Seq<u8>) -> Seq<ElfSegment> {
    spec_segments_upto(b, spec_phnum(b))
}

/// Errors of parsing and loading. All of them are fatal to the boot;
/// callers decide whether to panic.
#[derive(Clone, Copy, Debug, PartialEq, Eq, Structural)]
pub enum LoadError {
    /// Not a 64-bit little-endian ELF with an in-bounds program-header
    /// table.
    BadHeader,
    /// No executable segment to compute the relocation displacement from.
    NoTextSegment,
    /// A segment's file range or destination is inconsistent with the
    /// file or the address space.
    BadSegmentBounds,
    /// The frame allocator ran out of usable frames.
    FrameAllocationFailed,
    /// A destination page was already mapped.
    PageAlreadyMapped,
}

/// Parses the file header and program-header table, recording every
/// segment of a known, non-null kind with a nonzero memory size.
pub fn parse_elf(bytes: &Vec<u8>) -> (r: Result<ElfFile, LoadError>)
    ensures
        header_ok(bytes@) ==> {
            &&& r is Ok
            &&& r->Ok_0.segments@ == spec_segments(bytes@)
            &&& r->Ok_0.entry_point == spec_entry(bytes@)
        },
        !header_ok(bytes@) ==> r == Err::<ElfFile, LoadError>(LoadError::BadHeader),
{
    let n = bytes.len();
    if n < 64 {
        return Err(LoadError::BadHeader);
    }
    if !(bytes[0] == 0x7f && bytes[1] == 0x45 && bytes[2] == 0x4c && bytes[3] == 0x46) {
        return Err(LoadError::BadHeader);
    }
    if !(bytes[4] == 2 && bytes[5] == 1) {
        return Err(LoadError::BadHeader);
    }
    if read_le16(bytes, 54) != 56 {
        return Err(LoadError::BadHeader);
    }
    let phoff = read_le64(bytes, 32);
    let phnum = read_le16(bytes, 56) as u64;
    let table_len = phnum * 56;
    let table_end = match phoff.checked_add(table_len) {
        Some(v) => v,
        None => { return Err(LoadError::BadHeader) },
    };
    if table_end > n as u64 {
        return Err(LoadError::BadHeader);
    }
    let entry_point = read_le64(bytes, 24);
    let mut segments: Vec<ElfSegment> = Vec::new();
    let mut i: u64 = 0;
    while i < phnum
        invariant
            header_ok(bytes@),
            n == bytes@.len(),
            phoff == spec_phoff(bytes@),
            phnum == spec_phnum(bytes@),
            phoff + phnum * 56 <= n,
            0 <= i <= phnum,
            segments@ == spec_segments_upto(bytes@, i as int),
        decreases phnum - i,
    {
        let base = (phoff + i * 56) as usize;
        proof {
            assert(i * 56 + 56 <= phnum * 56) by (nonlinear_arith)
                requires
                    i < phnum,
            ;
            assert(base == phdr_base(bytes@, i as int));
        }
        let p_type = read_le32(bytes, base);
        let p_memsz = read_le64(bytes, base + 40);
        match segment_type_from_u32(p_type) {
            Some(ty) => {
                let keep = match ty {
                    ElfSegmentType::Null => false,
                    _ => p_memsz != 0,
                };
                if keep {
                    let p_flags = read_le32(bytes, base + 4);
                    let p_offset = read_le64(bytes, base + 8);
                    let p_vaddr = read_le64(bytes, base + 16);
                    let p_filesz = read_le64(bytes, base + 32);
                    let p_align = read_le64(bytes, base + 48);
                    let seg = ElfSegment {
                        ty,
                        align: p_align,
                        flags: flags_from_pf(p_flags),
                        file_start: p_offset,
                        file_len: p_filesz,
                        addr: VirtualMapDestination {
                            start: p_vaddr,
                            len: p_memsz,
                            original_start: p_vaddr,
                        },
                    };
                    proof {
                        assert(keeps_phdr(bytes@, i as int));
                        assert(seg == spec_segment_of(bytes@, i as int));
                    }
                    segments.push(seg);
                } else {
                    proof {
                        assert(!keeps_phdr(bytes@, i as int));
                    }
                }
            },
            None => {
                proof {
                    assert(!keeps_phdr(bytes@, i as int));
                }
            },
        }
        i = i + 1;
    }
    Ok(ElfFile { segments, entry_point })
}

/// Addition wrapped to the 64-bit range, as the relocation arithmetic
/// performs it.
pub open spec fn wrap_add64(a: u64, d: u64) -> u64 {
    ((a + d) % 0x1_0000_0000_0000_0000) as u64
}

/// Subtraction wrapped to the 64-bit range: the fixed displacement between
/// the chosen load address and the text segment's requested address.
pub open spec fn wrap_sub64(a: u64, b: u64) -> u64 {
    ((a - b) % 0x1_0000_0000_0000_0000) as u64
}

/// Applying the displacement toward `l` to `v` itself lands exactly on
/// `l`: the segment the displacement was computed from moves to the fixed
/// load address.
pub proof fn lemma_relocation_lands_on_target(v: u64, l: u64)
    ensures
        wrap_add64(v, wrap_sub64(l, v)) == l,
{
    let w = 0x1_0000_0000_0000_0000int;
    vstd::arithmetic::div_mod::lemma_add_mod_noop(v as int, (l - v) % w, w);
    vstd::arithmetic::div_mod::lemma_mod_twice(l - v, w);
    assert((v + (l - v) % w) % w == (v + (l - v)) % w) by {
        vstd::arithmetic::div_mod::lemma_mod_twice((l - v) % w, w);
        vstd::arithmetic::div_mod::lemma_small_mod(v as nat, w as nat);
        vstd::arithmetic::div_mod::lemma_add_mod_noop(v as int, (l - v), w);
    };
    vstd::arithmetic::div_mod::lemma_small_mod(l as nat, w as nat);
}

impl VirtualMapDestination {
    /// Moves the destination by the relocation displacement.
    pub fn remap(&mut self, delta: u64)
        ensures
            final(self).start == wrap_add64(old(self).start, delta),
            final(self).len == old(self).len,
            final(self).original_start == old(self).original_start,
    {
        self.start = self.start.wrapping_add(delta);
    }
}

impl ElfFile {
    /// Moves the entry point and every segment destination by the
    /// relocation displacement.
    pub fn remap(&mut self, delta: u64)
        ensures
            final(self).entry_point == wrap_add64(old(self).entry_point, delta),
            final(self).segments@.len() == old(self).segments@.len(),
            forall|i: int|
                0 <= i < old(self).segments@.len() ==> #[trigger] final(self).segments@[i] == (
                ElfSegment {
                    addr: VirtualMapDestination {
                        start: wrap_add64(old(self).segments@[i].addr.start, delta),
                        ..old(self).segments@[i].addr
                    },
                    ..old(self).segments@[i]
                }),
    {
        self.entry_point = self.entry_point.wrapping_add(delta);
        let n = self.segments.len();
        let mut i: usize = 0;
        while i < n
            invariant
                n == self.segments@.len(),
                n == old(self).segments@.len(),
                0 <= i <= n,
                self.entry_point == wrap_add64(old(self).entry_point, delta),
                forall|j: int|
                    i <= j < n ==> #[trigger] self.segments@[j] == old(self).segments@[j],
                forall|j: int|
                    0 <= j < i ==> #[trigger] self.segments@[j] == (ElfSegment {
                        addr: VirtualMapDestination {
                            start: wrap_add64(old(self).segments@[j].addr.start, delta),
                            ..old(self).segments@[j].addr
                        },
                        ..old(self).segments@[j]
                    }),
            decreases n - i,
        {
            let e = &mut self.segments[i];
            e.addr.remap(delta);
            i = i + 1;
        }
    }
}

/// Index of the first recorded segment whose flags allow execution, the
/// "text" reference for relocation; none means the file has nothing to
/// run.
pub open spec fn first_text_index(s: Seq<ElfSegment>) -> int
    decreases s.len(),
{
    if s.len() == 0 {
        -1
    } else if !s[0].flags.no_execute {
        0
    } else if first_text_index(s.drop_first()) == -1 {
        -1
    } else {
        first_text_index(s.drop_first()) + 1
    }
}

/// The first executable segment is executable, and nothing before it is.
pub proof fn lemma_first_text_index_props(s: Seq<ElfSegment>)
    ensures
        first_text_index(s) == -1 <==> (forall|i: int|
            0 <= i < s.len() ==> (#[trigger] s[i]).flags.no_execute),
        first_text_index(s) != -1 ==> {
            &&& 0 <= first_text_index(s) < s.len()
            &&& !s[first_text_index(s)].flags.no_execute
            &&& forall|i: int| 0 <= i < first_text_index(s) ==> (#[trigger] s[i]).flags.no_execute
        },
    decreases s.len(),
{
    if s.len() > 0 {
        let d = s.drop_first();
        lemma_first_text_index_props(d);
        assert forall|i: int| 0 <= i < d.len() implies #[trigger] d[i] == s[i + 1] by {}
        if !s[0].flags.no_execute {
        } else if first_text_index(d) == -1 {
            assert forall|i: int| 0 <= i < s.len() implies (#[trigger] s[i]).flags.no_execute by {
                if i >= 1 {
                    assert(s[i] == d[i - 1]);
                }
            };
        } else {
            let t = first_text_index(d);
            assert(first_text_index(s) == t + 1);
            assert(s[t + 1] == d[t]);
            assert forall|i: int| 0 <= i < t + 1 implies (#[trigger] s[i]).flags.no_execute by {
                if i >= 1 {
                    assert(s[i] == d[i - 1]);
                }
            };
        }
    }
}

/// Finds the requested start address of the first executable segment.
pub fn find_text_start(segments: &Vec<ElfSegment>) -> (r: Option<u64>)
    ensures
        first_text_index(segments@) == -1 ==> r is None,
        first_text_index(segments@) != -1 ==> r == Some(
            segments@[first_text_index(segments@)].addr.start,
        ),
{
    proof {
        lemma_first_text_index_props(segments@);
    }
    let n = segments.len();
    let mut i: usize = 0;
    while i < n
        invariant
            n == segments@.len(),
            0 <= i <= n,
            forall|j: int| 0 <= j < i ==> (#[trigger] segments@[j]).flags.no_execute,
        decreases n - i,
    {
        if !segments[i].flags.no_execute {
            proof {
                lemma_first_text_index_props(segments@);
                let t = first_text_index(segments@);
                assert(t != -1);
                assert(!(t < i) && !(t > i));
            }
            return Some(segments[i].addr.start);
        }
        i = i + 1;
    }
    proof {
        lemma_first_text_index_props(segments@);
    }
    None
}


/// One planned page of the loader: the flags it must carry once loading
/// is complete.
#[derive(Clone, Copy, Debug, PartialEq, Eq, Structural)]
pub struct PagePlan {
    pub page: u64,
    pub flags: PageTableFlags,
}

/// A segment occupies memory and its last byte has an address.
pub open spec fn seg_bounds_ok(s: ElfSegment) -> bool {
    &&& s.addr.len > 0
    &&& s.addr.start + s.addr.len - 1 <= u64::MAX
}

/// Every segment is within bounds.
pub open spec fn segs_bounds_ok(s: Seq<ElfSegment>) -> bool {
    forall|i: int| 0 <= i < s.len() ==> seg_bounds_ok(#[trigger] s[i])
}

/// First page of a segment's destination.
pub open spec fn seg_first_page(s: ElfSegment) -> u64 {
    spec_page_base(s.addr.start)
}

/// Last page of a segment's destination.
pub open spec fn seg_last_page(s: ElfSegment) -> u64 {
    spec_page_base((s.addr.start + s.addr.len - 1) as u64)
}

/// Number of pages a segment's destination covers.
pub open spec fn seg_page_count(s: ElfSegment) -> int {
    seg_last_page(s) as int / (PAGE_SIZE as int) - seg_first_page(s) as int / (PAGE_SIZE as int)
        + 1
}

/// The page `[p, p + 4096)` and the segment's byte range intersect.
pub open spec fn seg_touches(s: ElfSegment, p: u64) -> bool {
    s.addr.start < p + PAGE_SIZE && p < s.addr.start + s.addr.len
}

/// Some recorded segment touches page `p`.
pub open spec fn some_seg_touches(segs: Seq<ElfSegment>, p: u64) -> bool {
    exists|i: int| 0 <= i < segs.len() && seg_touches(#[trigger] segs[i], p)
}

/// The flags the plan gives a touched page: the OR of every intersecting
/// segment's flags, except that no-execute survives only when every
/// intersecting segment carries it — where an executable and a
/// non-executable segment share a page, execute wins.
pub open spec fn spec_planned_flags(segs: Seq<ElfSegment>, p: u64) -> PageTableFlags {
    PageTableFlags {
        present: exists|i: int|
            0 <= i < segs.len() && seg_touches(#[trigger] segs[i], p) && segs[i].flags.present,
        writable: exists|i: int|
            0 <= i < segs.len() && seg_touches(#[trigger] segs[i], p) && segs[i].flags.writable,
        user_accessible: exists|i: int|
            0 <= i < segs.len() && seg_touches(#[trigger] segs[i], p)
                && segs[i].flags.user_accessible,
        no_execute: forall|i: int|
            0 <= i < segs.len() && seg_touches(#[trigger] segs[i], p)
                ==> segs[i].flags.no_execute,
    }
}

/// A page the plan marks both writable and executable is shared by a
/// writable segment and an executable segment; on pages without that
/// overlap, writable implies no-execute.
pub proof fn lemma_no_write_exec_unless_overlap(segs: Seq<ElfSegment>, p: u64)
    requires
        spec_planned_flags(segs, p).writable,
        !spec_planned_flags(segs, p).no_execute,
    ensures
        exists|i: int|
            0 <= i < segs.len() && seg_touches(#[trigger] segs[i], p) && segs[i].flags.writable,
        exists|j: int|
            0 <= j < segs.len() && seg_touches(#[trigger] segs[j], p)
                && !segs[j].flags.no_execute,
{
}

/// An aligned value below another aligned value plus one page is at most
/// that value.
proof fn lemma_aligned_le(q: u64, p: u64)
    requires
        q % PAGE_SIZE == 0,
        p % PAGE_SIZE == 0,
        q < p + PAGE_SIZE,
    ensures
        q <= p,
{
    let sz = PAGE_SIZE as int;
    vstd::arithmetic::div_mod::lemma_fundamental_div_mod(q as int, sz);
    vstd::arithmetic::div_mod::lemma_fundamental_div_mod(p as int, sz);
    let qd = q as int / sz;
    let pd = p as int / sz;
    assert(q <= p) by (nonlinear_arith)
        requires
            q == sz * qd,
            p == sz * pd,
            q < p + sz,
            sz == 4096,
    ;
}

/// For a page-aligned address, touching a segment is the same as lying
/// between the segment's first and last pages.
pub proof fn lemma_touches_iff_range(s: ElfSegment, p: u64)
    requires
        seg_bounds_ok(s),
        p % PAGE_SIZE == 0,
    ensures
        seg_touches(s, p) <==> seg_first_page(s) <= p <= seg_last_page(s),
{
    let start = s.addr.start;
    let lastb = (s.addr.start + s.addr.len - 1) as u64;
    crate::addr::lemma_page_base_decompose(start);
    crate::addr::lemma_page_base_decompose(lastb);
    crate::addr::lemma_page_base_of_aligned(p);
    if seg_touches(s, p) {
        assert(seg_first_page(s) <= p) by {
            lemma_aligned_le(seg_first_page(s), p);
        };
        assert(p <= seg_last_page(s)) by {
            crate::addr::lemma_page_base_monotonic(p, lastb);
        };
    }
    if seg_first_page(s) <= p <= seg_last_page(s) {
        assert(start < p + PAGE_SIZE);
        assert(p < start + s.addr.len);
    }
}

/// Whether any recorded segment touches page `p`, and the planned flags.
pub fn page_flags_for(segments: &Vec<ElfSegment>, p: u64) -> (r: Option<PageTableFlags>)
    requires
        p % PAGE_SIZE == 0,
    ensures
        some_seg_touches(segments@, p) ==> r == Some(spec_planned_flags(segments@, p)),
        !some_seg_touches(segments@, p) ==> r is None,
{
    let n = segments.len();
    let mut found = false;
    let mut present = false;
    let mut writable = false;
    let mut user_accessible = false;
    let mut no_execute = true;
    let mut i: usize = 0;
    while i < n
        invariant
            n == segments@.len(),
            0 <= i <= n,
            p % PAGE_SIZE == 0,
            found == exists|j: int| 0 <= j < i && #[trigger] seg_touches(segments@[j], p),
            present == exists|j: int|
                0 <= j < i && #[trigger] seg_touches(segments@[j], p)
                    && segments@[j].flags.present,
            writable == exists|j: int|
                0 <= j < i && #[trigger] seg_touches(segments@[j], p)
                    && segments@[j].flags.writable,
            user_accessible == exists|j: int|
                0 <= j < i && #[trigger] seg_touches(segments@[j], p)
                    && segments@[j].flags.user_accessible,
            no_execute == forall|j: int|
                0 <= j < i && #[trigger] seg_touches(segments@[j], p)
                    ==> segments@[j].flags.no_execute,
        decreases n - i,
    {
        let s = segments[i];
        let touches = s.addr.start <= p.wrapping_add(PAGE_SIZE - 1) && (p < s.addr.start || p
            - s.addr.start < s.addr.len);
        proof {
            if p + PAGE_SIZE - 1 <= u64::MAX {
                assert(touches == seg_touches(s, p));
            } else {
                assert(touches == seg_touches(s, p));
            }
        }
        if touches {
            found = true;
            present = present || s.flags.present;
            writable = writable || s.flags.writable;
            user_accessible = user_accessible || s.flags.user_accessible;
            no_execute = no_execute && s.flags.no_execute;
        }
        i = i + 1;
    }
    if found {
        Some(PageTableFlags { present, writable, user_accessible, no_execute })
    } else {
        None
    }
}

/// Pages contributed by the first `i` segments, counted with repetition:
/// an upper bound on the plan's size.
pub open spec fn total_seg_pages_upto(segs: Seq<ElfSegment>, i: int) -> int
    decreases i,
{
    if i <= 0 {
        0
    } else {
        total_seg_pages_upto(segs, i - 1) + seg_page_count(segs[i - 1])
    }
}

/// Pages contributed by all segments, counted with repetition.
pub open spec fn total_seg_pages(segs: Seq<ElfSegment>) -> int {
    total_seg_pages_upto(segs, segs.len() as int)
}

/// The plan already holds page `p`.
pub open spec fn plan_has_page(plan: Seq<PagePlan>, p: u64) -> bool {
    exists|m: int| 0 <= m < plan.len() && plan[m].page == p
}

/// The `k`-th page of the address space.
pub open spec fn page_at_index(k: int) -> u64 {
    (k * (PAGE_SIZE as int)) as u64
}

/// Whether the plan holds page `p`.
fn contains_page(plan: &Vec<PagePlan>, p: u64) -> (r: bool)
    ensures
        r == plan_has_page(plan@, p),
{
    let n = plan.len();
    let mut i: usize = 0;
    while i < n
        invariant
            n == plan@.len(),
            0 <= i <= n,
            forall|m: int| 0 <= m < i ==> (#[trigger] plan@[m]).page != p,
        decreases n - i,
    {
        if plan[i].page == p {
            return true;
        }
        i = i + 1;
    }
    false
}

/// Builds the page plan: every page touched by any segment, once, with
/// the flags the flag-combination rule yields for it.
pub fn plan_pages(segments: &Vec<ElfSegment>) -> (r: Vec<PagePlan>)
    requires
        segs_bounds_ok(segments@),
    ensures
        forall|m: int, n2: int| 0 <= m < n2 < r@.len() ==> r@[m].page != r@[n2].page,
        forall|m: int|
            0 <= m < r@.len() ==> {
                &&& (#[trigger] r@[m]).page % PAGE_SIZE == 0
                &&& some_seg_touches(segments@, r@[m].page)
                &&& r@[m].flags == spec_planned_flags(segments@, r@[m].page)
            },
        forall|p: u64|
            p % PAGE_SIZE == 0 && #[trigger] some_seg_touches(segments@, p) ==> plan_has_page(
                r@,
                p,
            ),
        r@.len() <= total_seg_pages(segments@),
{
    let n = segments.len();
    let mut plan: Vec<PagePlan> = Vec::new();
    let mut i: usize = 0;
    while i < n
        invariant
            n == segments@.len(),
            segs_bounds_ok(segments@),
            0 <= i <= n,
            forall|m: int, n2: int| 0 <= m < n2 < plan@.len() ==> plan@[m].page != plan@[n2].page,
            forall|m: int|
                0 <= m < plan@.len() ==> {
                    &&& (#[trigger] plan@[m]).page % PAGE_SIZE == 0
                    &&& some_seg_touches(segments@, plan@[m].page)
                    &&& plan@[m].flags == spec_planned_flags(segments@, plan@[m].page)
                },
            forall|j: int, p: u64|
                0 <= j < i && p % PAGE_SIZE == 0 && #[trigger] seg_touches(segments@[j], p)
                    ==> plan_has_page(plan@, p),
            plan@.len() <= total_seg_pages_upto(segments@, i as int),
        decreases n - i,
    {
        let s = segments[i];
        let first = crate::addr::page_base(s.addr.start);
        let last = crate::addr::page_base(s.addr.start + (s.addr.len - 1));
        let fpi = first / PAGE_SIZE;
        let lpi = last / PAGE_SIZE;
        proof {
            crate::addr::lemma_page_base_decompose(s.addr.start);
            crate::addr::lemma_page_base_decompose((s.addr.start + (s.addr.len - 1)) as u64);
            crate::addr::lemma_page_base_monotonic(
                s.addr.start,
                (s.addr.start + (s.addr.len - 1)) as u64,
            );
            assert(first == fpi * PAGE_SIZE);
            assert(last == lpi * PAGE_SIZE);
            assert(seg_first_page(s) == first);
            assert(seg_last_page(s) == last);
        }
        let mut idx = fpi;
        while idx <= lpi
            invariant
                n == segments@.len(),
                segs_bounds_ok(segments@),
                0 <= i < n,
                s == segments@[i as int],
                first == seg_first_page(s),
                last == seg_last_page(s),
                first == fpi * PAGE_SIZE,
                last == lpi * PAGE_SIZE,
                fpi <= idx <= lpi + 1,
                forall|m: int, n2: int|
                    0 <= m < n2 < plan@.len() ==> plan@[m].page != plan@[n2].page,
                forall|m: int|
                    0 <= m < plan@.len() ==> {
                        &&& (#[trigger] plan@[m]).page % PAGE_SIZE == 0
                        &&& some_seg_touches(segments@, plan@[m].page)
                        &&& plan@[m].flags == spec_planned_flags(segments@, plan@[m].page)
                    },
                forall|j: int, p: u64|
                    0 <= j < i && p % PAGE_SIZE == 0 && #[trigger] seg_touches(segments@[j], p)
                        ==> plan_has_page(plan@, p),
                forall|k: int|
                    fpi <= k < idx ==> plan_has_page(plan@, #[trigger] page_at_index(k)),
                plan@.len() <= total_seg_pages_upto(segments@, i as int) + (idx - fpi),
            decreases lpi + 1 - idx,
        {
            let q = idx * PAGE_SIZE;
            proof {
                vstd::arithmetic::div_mod::lemma_mod_multiples_basic(idx as int, PAGE_SIZE as int);
                assert(q % PAGE_SIZE == 0);
                assert(first <= q <= last) by (nonlinear_arith)
                    requires
                        first == fpi * PAGE_SIZE,
                        last == lpi * PAGE_SIZE,
                        q == idx * PAGE_SIZE,
                        fpi <= idx <= lpi,
                        PAGE_SIZE == 4096,
                ;
                lemma_touches_iff_range(s, q);
                assert(seg_touches(segments@[i as int], q));
                assert(some_seg_touches(segments@, q));
                assert(q == page_at_index(idx as int));
            }
            let ghost prev_plan = plan@;
            if !contains_page(&plan, q) {
                let flags = match page_flags_for(segments, q) {
                    Some(f) => f,
                    None => {
                        proof {
                            assert(false);
                        }
                        PageTableFlags::present_only()
                    },
                };
                plan.push(PagePlan { page: q, flags });
                proof {
                    assert(forall|m: int|
                        0 <= m < prev_plan.len() ==> plan@[m] == #[trigger] prev_plan[m]);
                    assert(plan@[plan@.len() - 1].page == q);
                }
            } else {
                proof {
                    let m = choose|m: int| 0 <= m < plan@.len() && plan@[m].page == q;
                    assert(plan@[m].page == q);
                }
            }
            proof {
                assert(plan_has_page(plan@, q));
                assert forall|k: int| fpi <= k < idx + 1 implies plan_has_page(
                    plan@,
                    #[trigger] page_at_index(k),
                ) by {
                    if k < idx {
                        assert(plan_has_page(prev_plan, page_at_index(k)));
                        let m = choose|m: int|
                            0 <= m < prev_plan.len() && prev_plan[m].page == page_at_index(k);
                        assert(plan@[m].page == page_at_index(k));
                    }
                };
                assert forall|j: int, p: u64|
                    0 <= j < i && p % PAGE_SIZE == 0 && #[trigger] seg_touches(segments@[j], p) implies plan_has_page(plan@, p) by {
                    assert(plan_has_page(prev_plan, p));
                    let m = choose|m: int| 0 <= m < prev_plan.len() && prev_plan[m].page == p;
                    assert(plan@[m].page == p);
                };
            }
            idx = idx + 1;
        }
        proof {
            assert forall|j: int, p: u64|
                0 <= j < i + 1 && p % PAGE_SIZE == 0 && #[trigger] seg_touches(segments@[j], p) implies plan_has_page(plan@, p) by {
                if j == i {
                    lemma_touches_iff_range(segments@[j], p);
                    crate::addr::lemma_page_base_decompose(p);
                    crate::addr::lemma_page_base_of_aligned(p);
                    let k = p as int / (PAGE_SIZE as int);
                    vstd::arithmetic::div_mod::lemma_fundamental_div_mod(
                        p as int,
                        PAGE_SIZE as int,
                    );
                    assert(p == k * PAGE_SIZE);
                    assert(fpi <= k <= lpi) by (nonlinear_arith)
                        requires
                            first == fpi * PAGE_SIZE,
                            last == lpi * PAGE_SIZE,
                            p == k * PAGE_SIZE,
                            first <= p <= last,
                            PAGE_SIZE == 4096,
                    ;
                    assert(page_at_index(k) == p);
                    assert(plan_has_page(plan@, page_at_index(k)));
                }
            };
        }
        i = i + 1;
    }
    proof {
        assert forall|p: u64|
            p % PAGE_SIZE == 0 && #[trigger] some_seg_touches(segments@, p) implies plan_has_page(
            plan@,
            p,
        ) by {
            let j = choose|j: int| 0 <= j < segments@.len() && #[trigger] seg_touches(segments@[j], p);
            assert(seg_touches(segments@[j], p));
        };
    }
    plan
}

/// Copies `bytes[start .. start + len]` into a fresh vector.
fn slice_vec(bytes: &Vec<u8>, start: usize, len: usize) -> (r: Vec<u8>)
    requires
        start + len <= bytes@.len(),
    ensures
        r@ == bytes@.subrange(start as int, start as int + len),
{
    let nb = bytes.len();
    let mut v: Vec<u8> = Vec::new();
    let mut i: usize = 0;
    while i < len
        invariant
            nb == bytes@.len(),
            start + len <= bytes@.len(),
            0 <= i <= len,
            v@.len() == i,
            forall|k: int| 0 <= k < i ==> v@[k] == bytes@[start + k],
        decreases len - i,
    {
        v.push(bytes[start + i]);
        i = i + 1;
    }
    proof {
        assert(v@ =~= bytes@.subrange(start as int, start as int + len));
    }
    v
}

/// Maps every planned page with a freshly allocated frame, with the
/// planned flags plus writable so the loader can copy segment bytes in.
/// Succeeds exactly when no planned page is mapped yet and enough frames
/// remain.
pub fn map_planned(
    mapper: &mut AddressSpace,
    allocator: &mut BootInfoFrameAllocator,
    plan: &Vec<PagePlan>,
) -> (r: Result<(), LoadError>)
    requires
        old(mapper).wf(),
        old(allocator).wf(),
        forall|m: int, n2: int| 0 <= m < n2 < plan@.len() ==> plan@[m].page != plan@[n2].page,
        forall|m: int| 0 <= m < plan@.len() ==> (#[trigger] plan@[m]).page % PAGE_SIZE == 0,
    ensures
        final(mapper).wf(),
        final(allocator).wf(),
        final(allocator).regions == old(allocator).regions,
        r is Ok <==> {
            &&& forall|m: int|
                0 <= m < plan@.len() ==> !old(mapper)@.contains_key((#[trigger] plan@[m]).page)
            &&& old(allocator).frames_left() >= plan@.len()
        },
        r is Ok ==> {
            &&& forall|m: int|
                0 <= m < plan@.len() ==> final(mapper)@[(#[trigger] plan@[m]).page]
                    == (crate::paging::PageState {
                    frame: crate::memory::usable_frames(old(allocator).regions@)[old(
                        allocator,
                    ).next + m],
                    flags: (PageTableFlags { writable: true, ..plan@[m].flags }),
                    bytes: crate::paging::zero_page_bytes(),
                })
            &&& forall|m: int|
                0 <= m < plan@.len() ==> final(mapper)@.contains_key((#[trigger] plan@[m]).page)
            &&& forall|p: u64|
                !plan_has_page(plan@, p) ==> (#[trigger] final(mapper)@.contains_key(p) <==> old(
                    mapper,
                )@.contains_key(p))
            &&& forall|p: u64|
                !plan_has_page(plan@, p) && old(mapper)@.contains_key(p)
                    ==> #[trigger] final(mapper)@[p] == old(mapper)@[p]
            &&& final(allocator).next == old(allocator).next + plan@.len()
        },
        r is Err ==> (r == Err::<(), LoadError>(LoadError::FrameAllocationFailed) || r == Err::<
            (),
            LoadError,
        >(LoadError::PageAlreadyMapped)),
{
    let n = plan.len();
    let mut m: usize = 0;
    while m < n
        invariant
            mapper.wf(),
            allocator.wf(),
            allocator.regions == old(allocator).regions,
            n == plan@.len(),
            0 <= m <= n,
            forall|a: int, b: int| 0 <= a < b < n ==> plan@[a].page != plan@[b].page,
            forall|a: int| 0 <= a < n ==> (#[trigger] plan@[a]).page % PAGE_SIZE == 0,
            allocator.next == old(allocator).next + m,
            m > 0 ==> old(allocator).frames_left() >= m,
            forall|a: int|
                0 <= a < m ==> !old(mapper)@.contains_key((#[trigger] plan@[a]).page),
            forall|a: int|
                0 <= a < m ==> mapper@[(#[trigger] plan@[a]).page] == (crate::paging::PageState {
                    frame: crate::memory::usable_frames(old(allocator).regions@)[old(
                        allocator,
                    ).next + a],
                    flags: (PageTableFlags { writable: true, ..plan@[a].flags }),
                    bytes: crate::paging::zero_page_bytes(),
                }),
            forall|a: int| 0 <= a < m ==> mapper@.contains_key((#[trigger] plan@[a]).page),
            forall|p: u64|
                (forall|a: int| 0 <= a < m ==> (#[trigger] plan@[a]).page != p) ==> (
                #[trigger] mapper@.contains_key(p) <==> old(mapper)@.contains_key(p)),
            forall|p: u64|
                (forall|a: int| 0 <= a < m ==> (#[trigger] plan@[a]).page != p) && old(
                mapper)@.contains_key(p) ==> #[trigger] mapper@[p] == old(mapper)@[p],
        decreases n - m,
    {
        let entry = plan[m];
        let frame = match allocator.allocate_frame() {
            Some(f) => f,
            None => {
                proof {
                    assert(old(allocator).frames_left() <= m);
                }
                return Err(LoadError::FrameAllocationFailed);
            },
        };
        let flags = entry.flags.with_writable();
        let ghost before = *mapper;
        match mapper.map_to(entry.page, frame, flags) {
            Ok(()) => {},
            Err(_) => {
                proof {
                    assert(before@.contains_key(plan@[m as int].page));
                    assert(old(mapper)@.contains_key(plan@[m as int].page));
                }
                return Err(LoadError::PageAlreadyMapped);
            },
        }
        m = m + 1;
        proof {
            let ghost p_new = plan@[m - 1].page;
            assert forall|p: u64|
                (forall|a: int| 0 <= a < m ==> (#[trigger] plan@[a]).page != p) implies (
            #[trigger] mapper@.contains_key(p) <==> old(mapper)@.contains_key(p)) by {
                assert(plan@[m - 1].page != p);
                assert(mapper@.contains_key(p) <==> before@.contains_key(p));
            };
        }
    }
    Ok(())
}

/// Removes the temporary writable bit: every planned page whose final
/// flags lack writable gets exactly its planned flags installed.
pub fn tighten_flags(mapper: &mut AddressSpace, plan: &Vec<PagePlan>)
    requires
        old(mapper).wf(),
        forall|m: int, n2: int| 0 <= m < n2 < plan@.len() ==> plan@[m].page != plan@[n2].page,
        forall|m: int|
            0 <= m < plan@.len() ==> old(mapper)@.contains_key((#[trigger] plan@[m]).page),
    ensures
        final(mapper).wf(),
        forall|m: int|
            0 <= m < plan@.len() && !plan@[m].flags.writable ==> final(mapper)@[(
            #[trigger] plan@[m]).page] == (crate::paging::PageState {
                flags: plan@[m].flags,
                ..old(mapper)@[plan@[m].page]
            }),
        forall|m: int|
            0 <= m < plan@.len() && plan@[m].flags.writable ==> final(mapper)@[(
            #[trigger] plan@[m]).page] == old(mapper)@[plan@[m].page],
        forall|p: u64|
            #[trigger] final(mapper)@.contains_key(p) <==> old(mapper)@.contains_key(p),
        forall|p: u64|
            !plan_has_page(plan@, p) && old(mapper)@.contains_key(p)
                ==> (#[trigger] final(mapper)@[p]) == old(mapper)@[p],
{
    let n = plan.len();
    let mut m: usize = 0;
    while m < n
        invariant
            mapper.wf(),
            n == plan@.len(),
            0 <= m <= n,
            forall|a: int, b: int| 0 <= a < b < n ==> plan@[a].page != plan@[b].page,
            forall|a: int|
                0 <= a < n ==> old(mapper)@.contains_key((#[trigger] plan@[a]).page),
            forall|p: u64|
                #[trigger] mapper@.contains_key(p) <==> old(mapper)@.contains_key(p),
            forall|a: int|
                0 <= a < m && !plan@[a].flags.writable ==> mapper@[(#[trigger] plan@[a]).page]
                    == (crate::paging::PageState {
                    flags: plan@[a].flags,
                    ..old(mapper)@[plan@[a].page]
                }),
            forall|a: int|
                0 <= a < m && plan@[a].flags.writable ==> mapper@[(#[trigger] plan@[a]).page]
                    == old(mapper)@[plan@[a].page],
            forall|a: int|
                m <= a < n ==> mapper@[(#[trigger] plan@[a]).page] == old(mapper)@[plan@[a].page],
            forall|p: u64|
                !plan_has_page(plan@, p) && old(mapper)@.contains_key(p) ==> #[trigger] mapper@[p]
                    == old(mapper)@[p],
        decreases n - m,
    {
        let entry = plan[m];
        let ghost before = *mapper;
        if !entry.flags.writable {
            match mapper.update_flags(entry.page, entry.flags) {
                Ok(()) => {},
                Err(_) => {
                    proof {
                        assert(false);
                    }
                },
            }
        }
        m = m + 1;
        proof {
            assert forall|p: u64|
                !plan_has_page(plan@, p) && old(mapper)@.contains_key(p) implies #[trigger] mapper@[p]
                == old(mapper)@[p] by {
                assert(plan@[m - 1].page != p);
                assert(mapper@[p] == before@[p]);
            };
        }
    }
}

/// Every `Load` segment's file range fits the file and its memory size.
pub open spec fn load_file_ok(segs: Seq<ElfSegment>, blen: int) -> bool {
    forall|j: int|
        0 <= j < segs.len() && (#[trigger] segs[j]).ty is Load ==> segs[j].file_len
            <= segs[j].addr.len && segs[j].file_start + segs[j].file_len <= blen
}

/// Checks segment destinations and file ranges before any page is
/// touched.
pub fn validate_segments(segments: &Vec<ElfSegment>, file_len: usize) -> (ok: bool)
    ensures
        ok <==> segs_bounds_ok(segments@) && load_file_ok(segments@, file_len as int),
{
    let n = segments.len();
    let mut i: usize = 0;
    while i < n
        invariant
            n == segments@.len(),
            0 <= i <= n,
            forall|j: int| 0 <= j < i ==> seg_bounds_ok(#[trigger] segments@[j]),
            forall|j: int|
                0 <= j < i && (#[trigger] segments@[j]).ty is Load ==> segments@[j].file_len
                    <= segments@[j].addr.len && segments@[j].file_start + segments@[j].file_len
                    <= file_len,
        decreases n - i,
    {
        let s = segments[i];
        if s.addr.len == 0 {
            return false;
        }
        if s.addr.start > u64::MAX - (s.addr.len - 1) {
            return false;
        }
        let is_load = match s.ty {
            ElfSegmentType::Load => true,
            _ => false,
        };
        if is_load {
            if s.file_len > s.addr.len {
                return false;
            }
            let end = match s.file_start.checked_add(s.file_len) {
                Some(v) => v,
                None => { return false },
            };
            if end > file_len as u64 {
                return false;
            }
        }
        i = i + 1;
    }
    true
}

/// The byte at `a` is written by the copy of segment `s`.
pub open spec fn seg_copy_covers(s: ElfSegment, a: u64) -> bool {
    &&& s.ty is Load
    &&& s.addr.start <= a
    &&& a < s.addr.start + s.file_len
}

/// Copies the file bytes of every `Load` segment to its destination, in
/// table order: where copies overlap, the last segment wins.
pub fn copy_load_segments(
    mapper: &mut AddressSpace,
    bytes: &Vec<u8>,
    segments: &Vec<ElfSegment>,
)
    requires
        old(mapper).wf(),
        segs_bounds_ok(segments@),
        load_file_ok(segments@, bytes@.len() as int),
        forall|j: int|
            0 <= j < segments@.len() && (#[trigger] segments@[j]).ty is Load ==> old(
                mapper,
            ).range_mapped(segments@[j].addr.start, segments@[j].file_len as int) && old(
                mapper,
            ).range_writable(segments@[j].addr.start, segments@[j].file_len as int),
    ensures
        final(mapper).wf(),
        final(mapper)@.dom() == old(mapper)@.dom(),
        forall|p: u64|
            old(mapper)@.contains_key(p) ==> {
                &&& (#[trigger] final(mapper)@[p]).frame == old(mapper)@[p].frame
                &&& final(mapper)@[p].flags == old(mapper)@[p].flags
                &&& final(mapper)@[p].bytes.len() == old(mapper)@[p].bytes.len()
            },
        forall|j: int, a: u64|
            {
                &&& 0 <= j < segments@.len()
                &&& #[trigger] seg_copy_covers(segments@[j], a)
                &&& forall|j2: int|
                    j < j2 < segments@.len() ==> !(#[trigger] seg_copy_covers(segments@[j2], a))
            } ==> final(mapper).byte_at(a) == bytes@[
                segments@[j].file_start + (a - segments@[j].addr.start)
            ],
        forall|a: u64|
            old(mapper)@.contains_key(spec_page_base(a)) && (forall|j: int|
                0 <= j < segments@.len() ==> !seg_copy_covers(#[trigger] segments@[j], a))
                ==> final(mapper).byte_at(a) == old(mapper).byte_at(a),
{
    let n = segments.len();
    let mut i: usize = 0;
    while i < n
        invariant
            mapper.wf(),
            n == segments@.len(),
            0 <= i <= n,
            segs_bounds_ok(segments@),
            load_file_ok(segments@, bytes@.len() as int),
            mapper@.dom() == old(mapper)@.dom(),
            forall|j: int|
                0 <= j < n && (#[trigger] segments@[j]).ty is Load ==> old(
                    mapper,
                ).range_mapped(segments@[j].addr.start, segments@[j].file_len as int) && old(
                    mapper,
                ).range_writable(segments@[j].addr.start, segments@[j].file_len as int),
            forall|p: u64|
                old(mapper)@.contains_key(p) ==> {
                    &&& (#[trigger] mapper@[p]).frame == old(mapper)@[p].frame
                    &&& mapper@[p].flags == old(mapper)@[p].flags
                    &&& mapper@[p].bytes.len() == old(mapper)@[p].bytes.len()
                },
            forall|j: int, a: u64|
                {
                    &&& 0 <= j < i
                    &&& #[trigger] seg_copy_covers(segments@[j], a)
                    &&& forall|j2: int|
                        j < j2 < i ==> !(#[trigger] seg_copy_covers(segments@[j2], a))
                } ==> mapper.byte_at(a) == bytes@[
                    segments@[j].file_start + (a - segments@[j].addr.start)
                ],
            forall|a: u64|
                old(mapper)@.contains_key(spec_page_base(a)) && (forall|j: int|
                    0 <= j < i ==> !seg_copy_covers(#[trigger] segments@[j], a))
                    ==> mapper.byte_at(a) == old(mapper).byte_at(a),
        decreases n - i,
    {
        let s = segments[i];
        let is_load = match s.ty {
            ElfSegmentType::Load => true,
            _ => false,
        };
        let ghost before = *mapper;
        let ghost dv = bytes@.subrange(s.file_start as int, s.file_start + s.file_len);
        if is_load {
            let nb = bytes.len();
            proof {
                assert(segments@[i as int].ty is Load);
                assert(s.file_start + s.file_len <= bytes@.len());
            }
            let data = slice_vec(bytes, s.file_start as usize, s.file_len as usize);
            proof {
                assert(data@ == dv);
            }
            proof {
                assert(mapper.range_mapped(s.addr.start, s.file_len as int)) by {
                    assert forall|a: u64|
                        s.addr.start <= a && a < s.addr.start + s.file_len implies mapper@
                        .contains_key(#[trigger] spec_page_base(a)) by {
                        assert(old(mapper)@.contains_key(spec_page_base(a)));
                    };
                };
                assert(mapper.range_writable(s.addr.start, s.file_len as int)) by {
                    assert forall|a: u64|
                        s.addr.start <= a && a < s.addr.start + s.file_len implies mapper@[
                        #[trigger] spec_page_base(a)].flags.writable by {
                        assert(old(mapper)@.contains_key(spec_page_base(a)));
                        assert(old(mapper)@[spec_page_base(a)].flags.writable);
                    };
                };
            }
            mapper.write_bytes(s.addr.start, &data);
        }
        i = i + 1;
        proof {
            assert forall|j: int, a: u64|
                {
                    &&& 0 <= j < i
                    &&& #[trigger] seg_copy_covers(segments@[j], a)
                    &&& forall|j2: int|
                        j < j2 < i ==> !(#[trigger] seg_copy_covers(segments@[j2], a))
                } implies mapper.byte_at(a) == bytes@[
                segments@[j].file_start + (a - segments@[j].addr.start)
            ] by {
                let off = a - segments@[j].addr.start;
                if j == i - 1 {
                    assert(is_load);
                    assert(mapper.byte_at(a) == dv[off]);
                } else {
                    assert(!seg_copy_covers(segments@[i - 1], a));
                    if is_load {
                        assert(before@.contains_key(spec_page_base(a)));
                        assert(!(s.addr.start <= a && a < s.addr.start + dv.len()));
                        assert(mapper.byte_at(a) == before.byte_at(a));
                    }
                }
            };
            assert forall|a: u64|
                old(mapper)@.contains_key(spec_page_base(a)) && (forall|j: int|
                    0 <= j < i ==> !seg_copy_covers(#[trigger] segments@[j], a))
                implies mapper.byte_at(a) == old(mapper).byte_at(a) by {
                assert(!seg_copy_covers(segments@[i - 1], a));
                if is_load {
                    assert(!(s.addr.start <= a && a < s.addr.start + dv.len()));
                    assert(mapper.byte_at(a) == before.byte_at(a));
                }
            };
        }
    }
}

/// A segment moved by the relocation displacement.
pub open spec fn remap_seg(s: ElfSegment, delta: u64) -> ElfSegment {
    ElfSegment {
        addr: VirtualMapDestination { start: wrap_add64(s.addr.start, delta), ..s.addr },
        ..s
    }
}

/// The requested start address of the segment the relocation is computed
/// from.
pub open spec fn spec_text_start(b: Seq<u8>) -> u64 {
    spec_segments(b)[first_text_index(spec_segments(b))].addr.start
}

/// The displacement every address moves by: from the text segment's
/// requested address to the fixed load address.
pub open spec fn spec_delta(b: Seq<u8>) -> u64 {
    wrap_sub64(LOAD_TEXT_SECTION_AT, spec_text_start(b))
}

/// The recorded segments after relocation.
pub open spec fn spec_relocated_segments(b: Seq<u8>) -> Seq<ElfSegment> {
    Seq::new(spec_segments(b).len(), |i: int| remap_seg(spec_segments(b)[i], spec_delta(b)))
}

/// The whole input is loadable: parsable, with a text segment, and with
/// in-bounds destinations and file ranges after relocation.
pub open spec fn loadable(b: Seq<u8>) -> bool {
    &&& header_ok(b)
    &&& first_text_index(spec_segments(b)) != -1
    &&& segs_bounds_ok(spec_relocated_segments(b))
    &&& load_file_ok(spec_relocated_segments(b), b.len() as int)
}

/// Loads the executable: parse, relocate by the fixed displacement, plan
/// page flags across overlapping segments, map every planned page with a
/// fresh frame (writable for the copy), copy the `Load` segments' file
/// bytes in, and tighten the flags of pages not meant to stay writable.
///
/// The mapped pages carry exactly the planned flags; the entry point comes
/// back relocated. Unknown segment kinds were already skipped at parse
/// time and a missing or ill-bounded input is refused before any page is
/// touched. After each mutation the hardware shell must flush the
/// affected TLB entries.
#[verifier::rlimit(50)]
pub fn load(
    bytes: &Vec<u8>,
    mapper: &mut AddressSpace,
    allocator: &mut BootInfoFrameAllocator,
) -> (r: Result<ElfFile, LoadError>)
    requires
        old(mapper).wf(),
        old(allocator).wf(),
    ensures
        final(mapper).wf(),
        final(allocator).wf(),
        final(allocator).regions == old(allocator).regions,
        (r matches Err(e) && e is BadHeader) <==> !header_ok(bytes@),
        header_ok(bytes@) ==> ((r matches Err(e) && e is NoTextSegment) <==> first_text_index(
            spec_segments(bytes@),
        ) == -1),
        (header_ok(bytes@) && first_text_index(spec_segments(bytes@)) != -1) ==> ((r matches Err(e)
            && e is BadSegmentBounds) <==> !(segs_bounds_ok(spec_relocated_segments(bytes@))
            && load_file_ok(spec_relocated_segments(bytes@), bytes@.len() as int))),
        ({
            &&& loadable(bytes@)
            &&& forall|p: u64|
                p % PAGE_SIZE == 0 && #[trigger] some_seg_touches(
                    spec_relocated_segments(bytes@),
                    p,
                ) ==> !old(mapper)@.contains_key(p)
            &&& old(allocator).frames_left() >= total_seg_pages(spec_relocated_segments(bytes@))
        }) ==> r is Ok,
        r matches Ok(elf) ==> {
            &&& loadable(bytes@)
            &&& elf.entry_point == wrap_add64(spec_entry(bytes@) as u64, spec_delta(bytes@))
            &&& elf.segments@ == spec_relocated_segments(bytes@)
            &&& forall|p: u64|
                p % PAGE_SIZE == 0 && #[trigger] some_seg_touches(
                    spec_relocated_segments(bytes@),
                    p,
                ) ==> final(mapper)@.contains_key(p) && final(mapper)@[p].flags
                    == spec_planned_flags(spec_relocated_segments(bytes@), p)
            &&& forall|j: int, a: u64|
                {
                    &&& 0 <= j < spec_relocated_segments(bytes@).len()
                    &&& #[trigger] seg_copy_covers(spec_relocated_segments(bytes@)[j], a)
                    &&& forall|j2: int|
                        j < j2 < spec_relocated_segments(bytes@).len() ==> !(
                        #[trigger] seg_copy_covers(spec_relocated_segments(bytes@)[j2], a))
                } ==> final(mapper).byte_at(a) == bytes@[
                    spec_relocated_segments(bytes@)[j].file_start + (a - spec_relocated_segments(
                        bytes@,
                    )[j].addr.start)
                ]
            &&& forall|p: u64|
                !(p % PAGE_SIZE == 0 && some_seg_touches(spec_relocated_segments(bytes@), p))
                    ==> (#[trigger] final(mapper)@.contains_key(p) <==> old(
                mapper)@.contains_key(p))
            &&& forall|p: u64|
                !(p % PAGE_SIZE == 0 && some_seg_touches(spec_relocated_segments(bytes@), p))
                    && old(mapper)@.contains_key(p) ==> {
                    &&& (#[trigger] final(mapper)@[p]).frame == old(mapper)@[p].frame
                    &&& final(mapper)@[p].flags == old(mapper)@[p].flags
                }
            &&& forall|a: u64|
                old(mapper)@.contains_key(#[trigger] spec_page_base(a)) && !some_seg_touches(
                    spec_relocated_segments(bytes@),
                    spec_page_base(a),
                ) ==> final(mapper).byte_at(a) == old(mapper).byte_at(a)
        },
{
    let ghost b = bytes@;
    let mut elf = match parse_elf(bytes) {
        Ok(e) => e,
        Err(_) => { return Err(LoadError::BadHeader) },
    };
    let text_start = match find_text_start(&elf.segments) {
        Some(t) => t,
        None => { return Err(LoadError::NoTextSegment) },
    };
    proof {
        lemma_first_text_index_props(spec_segments(b));
        assert(text_start == spec_text_start(b));
    }
    let delta = LOAD_TEXT_SECTION_AT.wrapping_sub(text_start);
    proof {
        assert(delta == spec_delta(b));
    }
    elf.remap(delta);
    proof {
        assert(elf.segments@ =~= spec_relocated_segments(b));
    }
    let n_bytes = bytes.len();
    if !validate_segments(&elf.segments, n_bytes) {
        return Err(LoadError::BadSegmentBounds);
    }
    let ghost reloc = spec_relocated_segments(b);
    let plan = plan_pages(&elf.segments);
    let ghost alloc0 = *allocator;
    let ghost mapper0 = *mapper;
    match map_planned(mapper, allocator, &plan) {
        Ok(()) => {},
        Err(e) => {
            proof {
                if !(forall|m: int|
                    0 <= m < plan@.len() ==> !mapper0@.contains_key((#[trigger] plan@[m]).page)) {
                    let m = choose|m: int|
                        0 <= m < plan@.len() && mapper0@.contains_key((#[trigger] plan@[m]).page);
                    assert(some_seg_touches(reloc, plan@[m].page));
                } else {
                    assert(alloc0.frames_left() < plan@.len());
                }
            }
            return Err(e);
        },
    }
    let ghost mapper1 = *mapper;
    proof {
        assert forall|j: int|
            0 <= j < reloc.len() && (#[trigger] reloc[j]).ty is Load implies mapper1.range_mapped(
            reloc[j].addr.start,
            reloc[j].file_len as int,
        ) && mapper1.range_writable(reloc[j].addr.start, reloc[j].file_len as int) by {
            let s = reloc[j];
            assert forall|a: u64|
                s.addr.start <= a && a < s.addr.start + s.file_len implies mapper1@.contains_key(
                #[trigger] spec_page_base(a),
            ) && mapper1@[spec_page_base(a)].flags.writable by {
                crate::addr::lemma_page_base_decompose(a);
                let p = spec_page_base(a);
                assert(seg_touches(s, p));
                assert(some_seg_touches(reloc, p));
                assert(plan_has_page(plan@, p));
                let m = choose|m: int| 0 <= m < plan@.len() && plan@[m].page == p;
                assert(mapper1@[p].flags.writable);
            };
        };
    }
    copy_load_segments(mapper, bytes, &elf.segments);
    let ghost mapper2 = *mapper;
    proof {
        assert forall|m: int| 0 <= m < plan@.len() implies mapper2@.contains_key(
            (#[trigger] plan@[m]).page,
        ) by {
            assert(mapper1@.contains_key(plan@[m].page));
        };
    }
    tighten_flags(mapper, &plan);
    proof {
        // Flags: every touched page ends with exactly its planned flags.
        assert forall|p: u64|
            p % PAGE_SIZE == 0 && #[trigger] some_seg_touches(reloc, p) implies mapper@
            .contains_key(p) && mapper@[p].flags == spec_planned_flags(reloc, p) by {
            assert(plan_has_page(plan@, p));
            let m = choose|m: int| 0 <= m < plan@.len() && plan@[m].page == p;
            assert(plan@[m].flags == spec_planned_flags(reloc, p));
            assert(mapper2@[p].flags == (PageTableFlags { writable: true, ..plan@[m].flags }));
            if plan@[m].flags.writable {
                assert(mapper@[p] == mapper2@[p]);
                assert((PageTableFlags { writable: true, ..plan@[m].flags }) == plan@[m].flags);
            } else {
                assert(mapper@[p] == (crate::paging::PageState {
                    flags: plan@[m].flags,
                    ..mapper2@[p]
                }));
            }
        };
        // Bytes: tightening changes no page's bytes, so the copy facts
        // carry to the final state.
        assert forall|a: u64| mapper2@.contains_key(spec_page_base(a)) implies mapper.byte_at(a)
            == mapper2.byte_at(a) && mapper@.contains_key(spec_page_base(a)) by {
            let p = spec_page_base(a);
            if plan_has_page(plan@, p) {
                let m = choose|m: int| 0 <= m < plan@.len() && plan@[m].page == p;
                assert(mapper@[p].bytes == mapper2@[p].bytes);
            } else {
                assert(mapper@[p] == mapper2@[p]);
            }
        };
        // Untouched pages: never planned, so never mapped, written or
        // retouched.
        assert forall|p: u64|
            !(p % PAGE_SIZE == 0 && some_seg_touches(reloc, p)) implies (
        #[trigger] mapper@.contains_key(p) <==> mapper0@.contains_key(p)) by {
            if plan_has_page(plan@, p) {
                let m = choose|m: int| 0 <= m < plan@.len() && plan@[m].page == p;
                assert(p % PAGE_SIZE == 0 && some_seg_touches(reloc, p));
            }
            assert(mapper1@.contains_key(p) <==> mapper0@.contains_key(p));
            assert(mapper2@.contains_key(p) <==> mapper1@.contains_key(p));
        };
        assert forall|a: u64|
            mapper0@.contains_key(#[trigger] spec_page_base(a)) && !some_seg_touches(
                reloc,
                spec_page_base(a),
            ) implies mapper.byte_at(a) == mapper0.byte_at(a) by {
            let p = spec_page_base(a);
            crate::addr::lemma_page_base_decompose(a);
            if plan_has_page(plan@, p) {
                let m = choose|m: int| 0 <= m < plan@.len() && plan@[m].page == p;
                assert(some_seg_touches(reloc, p));
            }
            assert(mapper1@[p] == mapper0@[p]);
            assert forall|j: int|
                0 <= j < reloc.len() implies !(#[trigger] seg_copy_covers(reloc[j], a)) by {
                if seg_copy_covers(reloc[j], a) {
                    assert(seg_touches(reloc[j], p));
                    assert(some_seg_touches(reloc, p));
                }
            };
            assert(mapper2.byte_at(a) == mapper1.byte_at(a));
            assert(mapper1.byte_at(a) == mapper0.byte_at(a));
        };
    }
    Ok(elf)
}

/// Every recorded-and-touched page is planned present, and planned
/// user-accessible when every recorded segment is readable. (A segment
/// without the read bit leaves its pages closed to user code; readable
/// segments are what user programs are made of.)
pub proof fn lemma_user_pages_present_and_user(segs: Seq<ElfSegment>, p: u64)
    requires
        forall|i: int|
            0 <= i < segs.len() ==> (#[trigger] segs[i]).flags.present
                && segs[i].flags.user_accessible,
        some_seg_touches(segs, p),
    ensures
        spec_planned_flags(segs, p).present,
        spec_planned_flags(segs, p).user_accessible,
{
    let i = choose|i: int| 0 <= i < segs.len() && seg_touches(#[trigger] segs[i], p);
    assert(seg_touches(segs[i], p) && segs[i].flags.present);
    assert(seg_touches(segs[i], p) && segs[i].flags.user_accessible);
}

/// The segments recorded from the first `n` program headers all carry the
/// present flag: parsing sets it unconditionally.
proof fn lemma_segments_upto_present(b: Seq<u8>, n: int)
    ensures
        forall|i: int|
            0 <= i < spec_segments_upto(b, n).len() ==> (#[trigger] spec_segments_upto(b, n)[i])
                .flags.present,
    decreases n,
{
    if n > 0 {
        lemma_segments_upto_present(b, n - 1);
    }
}

/// Every relocated segment carries the present flag, so every page the
/// loader maps is present.
pub proof fn lemma_relocated_segments_present(b: Seq<u8>)
    ensures
        forall|i: int|
            0 <= i < spec_relocated_segments(b).len() ==> (#[trigger] spec_relocated_segments(
                b,
            )[i]).flags.present,
{
    lemma_segments_upto_present(b, spec_phnum(b));
    assert forall|i: int|
        0 <= i < spec_relocated_segments(b).len() implies (#[trigger] spec_relocated_segments(
        b,
    )[i]).flags.present by {
        assert(spec_relocated_segments(b)[i].flags == spec_segments(b)[i].flags);
    };
}

} // verus!
