//! Physical-frame allocation from the bootloader's memory map.
//!
//! The allocator walks the usable regions in order, stepping one 4 KiB frame
//! at a time, and hands out the n-th usable frame; n only moves backwards
//! when the most recently allocated frame is returned.

use vstd::prelude::*;

use crate::addr::{page_base, spec_page_base, PAGE_SIZE};

verus! {

/// Classification of a boot memory region: only usable regions feed the
/// frame allocator.
#[derive(Clone, Copy, Debug, PartialEq, Eq, Structural)]
pub enum MemoryRegionKind {
    Usable,
    Other,
}

/// One region of the boot memory map: the physical byte range
/// `[start, end)`.
#[derive(Clone, Copy, Debug, PartialEq, Eq, Structural)]
pub struct MemoryRegion {
    pub start: u64,
    pub end: u64,
    pub kind: MemoryRegionKind,
}

/// Number of frame starts the allocator derives from `r`: one per 4 KiB
/// step through a usable region, zero for any other region.
pub open spec fn region_frame_count(r: MemoryRegion) -> int {
    if r.kind is Usable && r.start < r.end {
        let d = r.end - r.start;
        d / (PAGE_SIZE as int) + if d % (PAGE_SIZE as int) != 0 {
            1int
        } else {
            0int
        }
    } else {
        0int
    }
}

/// The `k`-th frame start derived from `r`: the region start stepped by
/// `k` pages, dropped to its page base.
pub open spec fn region_frame(r: MemoryRegion, k: int) -> u64 {
    spec_page_base((r.start + k * (PAGE_SIZE as int)) as u64)
}

/// All frame starts derived from `r`, in address order.
pub open spec fn region_frames(r: MemoryRegion) -> Seq<u64> {
    Seq::new(region_frame_count(r) as nat, |k: int| region_frame(r, k))
}

/// Frame starts contributed by the regions from index `i` on.
pub open spec fn frames_from(regions: Seq<MemoryRegion>, i: int) -> Seq<u64>
    decreases regions.len() - i,
{
    if i < 0 || i >= regions.len() {
        Seq::empty()
    } else {
        region_frames(regions[i]) + frames_from(regions, i + 1)
    }
}

/// Every usable frame the memory map offers, in the order the allocator
/// hands them out.
pub open spec fn usable_frames(regions: Seq<MemoryRegion>) -> Seq<u64> {
    frames_from(regions, 0)
}

/// A frame allocator over the bootloader's memory map.
pub struct BootInfoFrameAllocator {
    pub regions: Vec<MemoryRegion>,
    pub next: usize,
    pub last_phys_addr: u64,
}

impl BootInfoFrameAllocator {
    /// The memory map is well formed: region bounds are ordered and the
    /// total frame count fits the counter.
    pub open spec fn wf(self) -> bool {
        &&& forall|i: int|
            0 <= i < self.regions@.len() ==> (#[trigger] self.regions@[i]).start
                <= self.regions@[i].end
        &&& usable_frames(self.regions@).len() <= usize::MAX
        &&& self.next <= usable_frames(self.regions@).len()
    }

    /// Frames not yet handed out.
    pub open spec fn frames_left(self) -> int {
        usable_frames(self.regions@).len() - self.next
    }

    /// Create a frame allocator from the passed memory map. All frames of
    /// regions marked usable must really be unused; that is the boot
    /// protocol's promise, not something this model can check.
    pub fn init(regions: Vec<MemoryRegion>) -> (r: BootInfoFrameAllocator)
        ensures
            r.regions == regions,
            r.next == 0,
            r.last_phys_addr == 0,
    {
        BootInfoFrameAllocator { regions, next: 0, last_phys_addr: 0 }
    }

    /// Hands out the `next`-th usable frame of the memory map, or `None`
    /// when the map is exhausted.
    pub fn allocate_frame(&mut self) -> (r: Option<u64>)
        requires
            old(self).wf(),
        ensures
            final(self).wf(),
            final(self).regions == old(self).regions,
            old(self).next < usable_frames(old(self).regions@).len() ==> {
                &&& r == Some(usable_frames(old(self).regions@)[old(self).next as int])
                &&& final(self).next == old(self).next + 1
                &&& final(self).last_phys_addr == usable_frames(old(self).regions@)[old(
                    self,
                ).next as int]
            },
            old(self).next >= usable_frames(old(self).regions@).len() ==> {
                &&& r is None
                &&& *final(self) == *old(self)
            },
    {
        let ghost all = usable_frames(self.regions@);
        let n = self.regions.len();
        let target = self.next as u64;
        let mut i: usize = 0;
        let mut seen: u64 = 0;
        while i < n
            invariant
                *self == *old(self),
                self.wf(),
                n == self.regions@.len(),
                all == usable_frames(self.regions@),
                target == old(self).next as u64,
                0 <= i <= n,
                seen <= target,
                seen + frames_from(self.regions@, i as int).len() == all.len(),
                frames_from(self.regions@, i as int) == all.skip(seen as int),
            decreases n - i,
        {
            let ghost regs = self.regions@;
            let r = self.regions[i];
            let cnt = frames_in_region(r);
            proof {
                assert(frames_from(regs, i as int) == region_frames(r) + frames_from(
                    regs,
                    i as int + 1,
                ));
            }
            if target - seen < cnt {
                let k = target - seen;
                proof {
                    lemma_region_frame_in_bounds(r, k as int);
                    assert(all[target as int] == frames_from(regs, i as int)[k as int]);
                    assert(frames_from(regs, i as int)[k as int] == region_frames(r)[k as int]);
                }
                let frame = page_base(r.start + k * PAGE_SIZE);
                self.next = self.next + 1;
                self.last_phys_addr = frame;
                return Some(frame);
            }
            proof {
                assert(all.skip(seen as int).skip(cnt as int) =~= all.skip(seen + cnt as int));
                assert((region_frames(r) + frames_from(regs, i as int + 1)).skip(
                    region_frames(r).len() as int,
                ) =~= frames_from(regs, i as int + 1));
            }
            seen = seen + cnt;
            i = i + 1;
        }
        None
    }

    /// Returns a frame to the allocator. Only the most recently allocated
    /// frame can be taken back; anything else is a no-op.
    pub fn deallocate_frame(&mut self, frame_start: u64)
        ensures
            final(self).regions == old(self).regions,
            final(self).last_phys_addr == old(self).last_phys_addr,
            (frame_start == old(self).last_phys_addr && old(self).next > 0) ==> final(self).next
                == old(self).next - 1,
            !(frame_start == old(self).last_phys_addr && old(self).next > 0) ==> final(self).next
                == old(self).next,
    {
        if frame_start == self.last_phys_addr && self.next > 0 {
            self.next = self.next - 1;
        }
    }
}

/// Number of frames the allocator derives from `r`.
pub fn frames_in_region(r: MemoryRegion) -> (cnt: u64)
    requires
        r.start <= r.end,
    ensures
        cnt == region_frame_count(r),
{
    match r.kind {
        MemoryRegionKind::Usable => {
            if r.start < r.end {
                let d = r.end - r.start;
                d / PAGE_SIZE + if d % PAGE_SIZE != 0 {
                    1
                } else {
                    0
                }
            } else {
                0
            }
        },
        MemoryRegionKind::Other => 0,
    }
}

/// The `k`-th frame of a region starts inside the region, so the stepped
/// address fits in a word.
proof fn lemma_region_frame_in_bounds(r: MemoryRegion, k: int)
    requires
        r.start <= r.end,
        0 <= k < region_frame_count(r),
    ensures
        r.start + k * (PAGE_SIZE as int) < r.end,
{
    let p = PAGE_SIZE as int;
    let d = r.end - r.start;
    let q = d / p;
    let m = d % p;
    vstd::arithmetic::div_mod::lemma_fundamental_div_mod(d, p);
    assert(d == p * q + m);
    if m == 0 {
        assert(k <= q - 1);
        assert(k * p <= (q - 1) * p) by (nonlinear_arith)
            requires
                k <= q - 1,
                p > 0,
        ;
        assert((q - 1) * p == p * q - p) by (nonlinear_arith);
    } else {
        assert(k <= q);
        assert(k * p <= q * p) by (nonlinear_arith)
            requires
                k <= q,
                p > 0,
        ;
    }
}

} // verus!
