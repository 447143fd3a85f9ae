//! User-mode bring-up: the fixed user stack that ring 3 starts on. The
//! ring transition itself (`swapgs` + `sysretq`) is two instructions of
//! the hardware shell; everything it consumes — the stack, the entry
//! point, the RFLAGS value — is computed and checked here.

use vstd::prelude::*;

use crate::addr::PAGE_SIZE;
use crate::flags::PageTableFlags;
use crate::memory::{usable_frames, BootInfoFrameAllocator};
use crate::paging::{zero_page_bytes, AddressSpace, MapToError, PageState};

verus! {

/// Lowest page of the user stack: the page containing the fixed,
/// recognizable address the kernel parks the stack at.
pub const USER_STACK_LOWEST_PAGE: u64 = 0xDEAD_B000;

/// The user stack spans four pages.
pub const USER_STACK_PAGE_COUNT: u64 = 4;

/// The `k`-th virtual page of the user stack.
pub open spec fn user_stack_page(k: int) -> u64 {
    (USER_STACK_LOWEST_PAGE + k * (PAGE_SIZE as int)) as u64
}

/// First address above the stack: RSP and RBP at ring-3 entry.
pub const USER_STACK_TOP: u64 = 0xDEAD_F000;

/// Maps the four user stack pages with fresh frames, present, writable
/// and user-accessible, and returns the stack top for the ring-3 entry.
/// Succeeds exactly when the range is unmapped and enough frames remain.
pub fn setup_user_stack(
    mapper: &mut AddressSpace,
    frame_allocator: &mut BootInfoFrameAllocator,
) -> (r: Result<u64, MapToError>)
    requires
        old(mapper).wf(),
        old(frame_allocator).wf(),
    ensures
        final(mapper).wf(),
        final(frame_allocator).wf(),
        final(frame_allocator).regions == old(frame_allocator).regions,
        r is Ok <==> {
            &&& forall|k: int|
                0 <= k < USER_STACK_PAGE_COUNT ==> !old(mapper)@.contains_key(
                    #[trigger] user_stack_page(k),
                )
            &&& old(frame_allocator).frames_left() >= USER_STACK_PAGE_COUNT
        },
        r is Ok ==> {
            &&& r == Ok::<u64, MapToError>(USER_STACK_TOP)
            &&& forall|k: int|
                0 <= k < USER_STACK_PAGE_COUNT ==> final(mapper)@[#[trigger] user_stack_page(k)]
                    == (PageState {
                    frame: usable_frames(old(frame_allocator).regions@)[old(
                        frame_allocator,
                    ).next + k],
                    flags: PageTableFlags {
                        present: true,
                        writable: true,
                        user_accessible: true,
                        no_execute: false,
                    },
                    bytes: zero_page_bytes(),
                })
            &&& forall|p: u64|
                (forall|k: int| 0 <= k < USER_STACK_PAGE_COUNT ==> user_stack_page(k) != p) ==> (
                #[trigger] final(mapper)@.contains_key(p) <==> old(mapper)@.contains_key(p))
            &&& forall|p: u64|
                (forall|k: int| 0 <= k < USER_STACK_PAGE_COUNT ==> user_stack_page(k) != p)
                    && old(mapper)@.contains_key(p) ==> #[trigger] final(mapper)@[p] == old(
                    mapper,
                )@[p]
            &&& final(frame_allocator).next == old(frame_allocator).next + USER_STACK_PAGE_COUNT
        },
{
    let mut k: u64 = 0;
    while k < USER_STACK_PAGE_COUNT
        invariant
            mapper.wf(),
            frame_allocator.wf(),
            frame_allocator.regions == old(frame_allocator).regions,
            0 <= k <= USER_STACK_PAGE_COUNT,
            frame_allocator.next == old(frame_allocator).next + k,
            k > 0 ==> old(frame_allocator).frames_left() >= k,
            forall|j: int|
                0 <= j < k ==> !old(mapper)@.contains_key(#[trigger] user_stack_page(j)),
            forall|j: int|
                0 <= j < k ==> mapper@[#[trigger] user_stack_page(j)] == (PageState {
                    frame: usable_frames(old(frame_allocator).regions@)[old(
                        frame_allocator,
                    ).next + j],
                    flags: PageTableFlags {
                        present: true,
                        writable: true,
                        user_accessible: true,
                        no_execute: false,
                    },
                    bytes: zero_page_bytes(),
                }),
            forall|j: int| 0 <= j < k ==> mapper@.contains_key(#[trigger] user_stack_page(j)),
            forall|p: u64|
                (forall|j: int| 0 <= j < k ==> user_stack_page(j) != p) ==> (
                #[trigger] mapper@.contains_key(p) <==> old(mapper)@.contains_key(p)),
            forall|p: u64|
                (forall|j: int| 0 <= j < k ==> user_stack_page(j) != p) && old(
                mapper)@.contains_key(p) ==> #[trigger] mapper@[p] == old(mapper)@[p],
        decreases USER_STACK_PAGE_COUNT - k,
    {
        let page = USER_STACK_LOWEST_PAGE + k * PAGE_SIZE;
        let frame = match frame_allocator.allocate_frame() {
            Some(f) => f,
            None => {
                proof {
                    assert(old(frame_allocator).frames_left() <= k);
                }
                return Err(MapToError::FrameAllocationFailed);
            },
        };
        let flags = PageTableFlags::user_data();
        let ghost before = *mapper;
        match mapper.map_to(page, frame, flags) {
            Ok(()) => {},
            Err(e) => {
                proof {
                    assert(old(mapper)@.contains_key(user_stack_page(k as int)));
                }
                return Err(e);
            },
        }
        k = k + 1;
        proof {
            assert forall|p: u64|
                (forall|j: int| 0 <= j < k ==> user_stack_page(j) != p) implies (
            #[trigger] mapper@.contains_key(p) <==> old(mapper)@.contains_key(p)) by {
                assert(user_stack_page(k - 1) != p);
                assert(mapper@.contains_key(p) <==> before@.contains_key(p));
            };
        }
    }
    Ok(USER_STACK_TOP)
}

} // verus!
