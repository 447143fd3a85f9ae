//! The kernel's bump heap: a monotonic allocator over a fixed virtual
//! range, with retraction only for the topmost allocation.
//!
//! On hardware the three words live in atomics; on the single CPU this
//! kernel supports, every operation completes alone, so the model keeps
//! plain fields and each operation is one atomic step.

use vstd::prelude::*;

use crate::addr::{align_up, lemma_align_up_props, spec_align_up, is_power_of_two, PAGE_SIZE};
use crate::flags::PageTableFlags;
use crate::memory::{usable_frames, BootInfoFrameAllocator};
use crate::paging::{zero_page_bytes, AddressSpace, MapToError, PageState};

verus! {

/// Start of the kernel heap's virtual range.
pub const HEAP_START: u64 = 0x4444_4444_0000;

/// Size of the kernel heap in bytes.
pub const HEAP_SIZE: u64 = 100 * 1024;

/// Number of pages backing the kernel heap.
pub const HEAP_PAGE_COUNT: u64 = 25;

/// The `k`-th virtual page of the kernel heap.
pub open spec fn heap_page(k: int) -> u64 {
    (HEAP_START + k * (PAGE_SIZE as int)) as u64
}

/// Maps the heap's virtual range one page at a time with freshly allocated
/// frames, then hands the range to the bump allocator. Succeeds exactly
/// when the range is still unmapped and enough frames remain; after
/// success the allocator never asks for another frame.
pub fn init_kernel_heap(
    mapper: &mut AddressSpace,
    frame_allocator: &mut BootInfoFrameAllocator,
    heap: &mut BumpAllocator,
) -> (r: Result<(), MapToError>)
    requires
        old(mapper).wf(),
        old(frame_allocator).wf(),
    ensures
        final(mapper).wf(),
        final(frame_allocator).wf(),
        final(frame_allocator).regions == old(frame_allocator).regions,
        r is Ok <==> {
            &&& forall|k: int|
                0 <= k < HEAP_PAGE_COUNT ==> !old(mapper)@.contains_key(#[trigger] heap_page(k))
            &&& old(frame_allocator).frames_left() >= HEAP_PAGE_COUNT
        },
        r is Ok ==> {
            &&& forall|k: int|
                0 <= k < HEAP_PAGE_COUNT ==> final(mapper)@[#[trigger] heap_page(k)]
                    == (PageState {
                    frame: usable_frames(old(frame_allocator).regions@)[old(
                        frame_allocator,
                    ).next + k],
                    flags: PageTableFlags {
                        present: true,
                        writable: true,
                        user_accessible: false,
                        no_execute: false,
                    },
                    bytes: zero_page_bytes(),
                })
            &&& forall|p: u64|
                (forall|k: int| 0 <= k < HEAP_PAGE_COUNT ==> heap_page(k) != p) ==> (
                #[trigger] final(mapper)@.contains_key(p) <==> old(mapper)@.contains_key(p))
            &&& forall|p: u64|
                (forall|k: int| 0 <= k < HEAP_PAGE_COUNT ==> heap_page(k) != p) && old(
                mapper)@.contains_key(p) ==> #[trigger] final(mapper)@[p] == old(mapper)@[p]
            &&& final(frame_allocator).next == old(frame_allocator).next + HEAP_PAGE_COUNT
            &&& *final(heap) == (BumpAllocator {
                heap_start: HEAP_START,
                heap_end: (HEAP_START + HEAP_SIZE) as u64,
                next: HEAP_START,
            })
            &&& final(heap).wf()
        },
        r is Err ==> *final(heap) == *old(heap),
{
    let mut k: u64 = 0;
    while k < HEAP_PAGE_COUNT
        invariant
            mapper.wf(),
            frame_allocator.wf(),
            *heap == *old(heap),
            frame_allocator.regions == old(frame_allocator).regions,
            0 <= k <= HEAP_PAGE_COUNT,
            frame_allocator.next == old(frame_allocator).next + k,
            k > 0 ==> old(frame_allocator).frames_left() >= k,
            forall|j: int|
                0 <= j < k ==> !old(mapper)@.contains_key(#[trigger] heap_page(j)),
            forall|j: int|
                0 <= j < k ==> mapper@[#[trigger] heap_page(j)] == (PageState {
                    frame: usable_frames(old(frame_allocator).regions@)[old(
                        frame_allocator,
                    ).next + j],
                    flags: PageTableFlags {
                        present: true,
                        writable: true,
                        user_accessible: false,
                        no_execute: false,
                    },
                    bytes: zero_page_bytes(),
                }),
            forall|j: int| 0 <= j < k ==> mapper@.contains_key(#[trigger] heap_page(j)),
            forall|p: u64|
                (forall|j: int| 0 <= j < k ==> heap_page(j) != p) ==> (
                #[trigger] mapper@.contains_key(p) <==> old(mapper)@.contains_key(p)),
            forall|p: u64|
                (forall|j: int| 0 <= j < k ==> heap_page(j) != p) && old(mapper)@.contains_key(
                    p,
                ) ==> #[trigger] mapper@[p] == old(mapper)@[p],
        decreases HEAP_PAGE_COUNT - k,
    {
        let page = HEAP_START as u64 + k * PAGE_SIZE;
        let frame = match frame_allocator.allocate_frame() {
            Some(f) => f,
            None => {
                proof {
                    assert(old(frame_allocator).frames_left() <= k);
                }
                return Err(MapToError::FrameAllocationFailed);
            },
        };
        let flags = PageTableFlags::kernel_data();
        let ghost before = *mapper;
        match mapper.map_to(page, frame, flags) {
            Ok(()) => {},
            Err(_) => {
                proof {
                    assert(before@.contains_key(heap_page(k as int)));
                    assert(old(mapper)@.contains_key(heap_page(k as int)));
                }
                return Err(MapToError::PageAlreadyMapped);
            },
        }
        k = k + 1;
        proof {
            assert forall|p: u64|
                (forall|j: int| 0 <= j < k ==> heap_page(j) != p) implies (
            #[trigger] mapper@.contains_key(p) <==> old(mapper)@.contains_key(p)) by {
                assert(heap_page(k - 1) != p);
                assert(mapper@.contains_key(p) <==> before@.contains_key(p));
            };
        }
    }
    heap.init(HEAP_START, HEAP_SIZE);
    Ok(())
}

/// Bump allocator state: `heap_start <= next <= heap_end` once initialized.
#[derive(Clone, Copy, Debug, PartialEq, Eq, Structural)]
pub struct BumpAllocator {
    pub heap_start: u64,
    pub heap_end: u64,
    pub next: u64,
}

/// The allocator state after a successful `alloc`, with the pointer it
/// hands out; `None` when the request does not fit.
pub open spec fn spec_alloc(b: BumpAllocator, size: int, align: int) -> Option<
    (BumpAllocator, int),
> {
    let ptr = spec_align_up(b.next as int, align);
    let adv = spec_align_up(size, align);
    if ptr + adv <= b.heap_end {
        Some((BumpAllocator { next: (ptr + adv) as u64, ..b }, ptr))
    } else {
        None
    }
}

/// The allocator state after `dealloc`: `next` retracts to `ptr` exactly
/// when the freed block is the topmost allocation.
pub open spec fn spec_dealloc(b: BumpAllocator, ptr: int, size: int, align: int) -> BumpAllocator {
    if ptr + spec_align_up(size, align) == b.next {
        BumpAllocator { next: ptr as u64, ..b }
    } else {
        b
    }
}

impl BumpAllocator {
    /// `heap_start <= next <= heap_end`, and the heap starts above the
    /// null page so a zero pointer can signal failure.
    pub open spec fn wf(self) -> bool {
        0 < self.heap_start <= self.next <= self.heap_end
    }

    /// Creates a new empty bump allocator.
    pub fn new() -> (r: BumpAllocator)
        ensures
            r == (BumpAllocator { heap_start: 0, heap_end: 0, next: 0 }),
    {
        BumpAllocator { heap_start: 0, heap_end: 0, next: 0 }
    }

    /// Initializes the bump allocator with the given heap bounds. The
    /// range must be unused memory; the caller hands it over for good.
    pub fn init(&mut self, heap_start: u64, heap_size: u64)
        requires
            0 < heap_start,
            heap_start + heap_size <= u64::MAX,
        ensures
            final(self).heap_start == heap_start,
            final(self).heap_end == heap_start + heap_size,
            final(self).next == heap_start,
            final(self).wf(),
    {
        self.heap_start = heap_start;
        self.heap_end = heap_start + heap_size;
        self.next = heap_start;
    }

    /// Rounds `next` up to `align`, advances it by the rounded size and
    /// returns the rounded old value; returns 0 (null) and changes nothing
    /// when the advance would cross the end of the heap.
    pub fn allocate(&mut self, size: u64, align: u64) -> (ptr: u64)
        requires
            old(self).wf(),
            is_power_of_two(align as int),
        ensures
            final(self).wf(),
            match spec_alloc(*old(self), size as int, align as int) {
                Some((b, p)) => *final(self) == b && ptr == p && ptr != 0,
                None => *final(self) == *old(self) && ptr == 0,
            },
    {
        proof {
            crate::addr::lemma_power_of_two_pos(align as int);
            lemma_align_up_props(self.next as int, align as int);
            lemma_align_up_props(size as int, align as int);
        }
        let aligned_next = match align_up(self.next, align) {
            Some(v) => v,
            None => { return 0 },
        };
        let advance = match align_up(size, align) {
            Some(v) => v,
            None => { return 0 },
        };
        let new_next = match aligned_next.checked_add(advance) {
            Some(v) => v,
            None => { return 0 },
        };
        if new_next > self.heap_end {
            0
        } else {
            self.next = new_next;
            aligned_next
        }
    }

    /// Retracts `next` to `ptr` when the freed block is still the topmost
    /// allocation; otherwise the memory is simply abandoned.
    pub fn deallocate(&mut self, ptr: u64, size: u64, align: u64)
        requires
            old(self).wf(),
            is_power_of_two(align as int),
            old(self).heap_start <= ptr,
        ensures
            final(self).wf(),
            *final(self) == spec_dealloc(*old(self), ptr as int, size as int, align as int),
    {
        proof {
            crate::addr::lemma_power_of_two_pos(align as int);
            lemma_align_up_props(size as int, align as int);
        }
        let advance = match align_up(size, align) {
            Some(v) => v,
            None => { return },
        };
        let end = match ptr.checked_add(advance) {
            Some(v) => v,
            None => { return },
        };
        if end == self.next {
            self.next = ptr;
        }
    }
}

/// Freeing an allocation right after making it restores `next` to its
/// prior value. This needs `next` to sit on the requested alignment
/// already, since `alloc` first rounds `next` up and the retraction only
/// reaches that rounded value.
pub proof fn lemma_alloc_dealloc_restores_next(b: BumpAllocator, size: int, align: int)
    requires
        b.wf(),
        align > 0,
        size >= 0,
        b.next as int % align == 0,
        spec_alloc(b, size, align) is Some,
    ensures
        spec_dealloc(
            spec_alloc(b, size, align)->Some_0.0,
            spec_alloc(b, size, align)->Some_0.1,
            size,
            align,
        ).next == b.next,
{
    lemma_align_up_props(size, align);
    crate::addr::lemma_align_up_aligned(b.next as int, align);
}

} // verus!
