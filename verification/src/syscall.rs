//! The syscall interface: numbers, error codes, the per-CPU thread record,
//! user-pointer validation, and the read/write/exit services.
//!
//! The ABI is stable: RAX carries the result, with the top of the unsigned
//! range encoding negated error codes (1 = no such syscall, 2 = invalid
//! argument).

use vstd::prelude::*;

use crate::addr::{
    lemma_page_base_decompose, lemma_page_base_monotonic, page_base, spec_page_base, PAGE_SIZE,
};
use crate::device::TextDevice;
use crate::paging::AddressSpace;

verus! {

/// System calls this kernel recognizes.
#[derive(Clone, Copy, Debug, PartialEq, Eq, Structural)]
pub enum Syscall {
    Read,
    Write,
    Exit,
}

/// The syscall a number denotes: 1 = Read, 2 = Write, 3 = Exit.
pub open spec fn spec_syscall_from_number(num: u64) -> Option<Syscall> {
    if num == 1 {
        Some(Syscall::Read)
    } else if num == 2 {
        Some(Syscall::Write)
    } else if num == 3 {
        Some(Syscall::Exit)
    } else {
        None
    }
}

/// Decodes a syscall number; anything but 1, 2 or 3 is unknown.
pub fn syscall_from_number(num: u64) -> (r: Option<Syscall>)
    ensures
        r == spec_syscall_from_number(num),
{
    if num == 1 {
        Some(Syscall::Read)
    } else if num == 2 {
        Some(Syscall::Write)
    } else if num == 3 {
        Some(Syscall::Exit)
    } else {
        None
    }
}

/// Errors a syscall can return to user code.
#[derive(Clone, Copy, Debug, PartialEq, Eq, Structural)]
pub enum Error {
    /// No such system call.
    NoSys,
    /// Invalid argument to syscall.
    InvalidArgument,
}

/// The ABI code of an error: 1 = NoSys, 2 = InvalidArgument.
pub open spec fn error_code(e: Error) -> u64 {
    match e {
        Error::NoSys => 1,
        Error::InvalidArgument => 2,
    }
}

/// What RAX holds for an error: the code negated, wrapped to the unsigned
/// range.
pub open spec fn error_return_value(e: Error) -> u64 {
    (0x1_0000_0000_0000_0000 - error_code(e)) as u64
}

/// Encodes an error for the RAX return register.
pub fn encode_error(e: Error) -> (r: u64)
    ensures
        r == error_return_value(e),
{
    let code: u64 = match e {
        Error::NoSys => 1,
        Error::InvalidArgument => 2,
    };
    0u64.wrapping_sub(code)
}

/// Longest buffer a syscall accepts: the maximum signed machine integer.
pub const MAX_RW_LEN: u64 = 0x7FFF_FFFF_FFFF_FFFF;

/// The per-CPU thread record, reachable from the trampoline through the
/// segment base register at fixed field offsets. Zero encodes "absent" in
/// both fields, matching the niche layout the assembly writes.
#[derive(Clone, Copy, Debug, PartialEq, Eq, Structural)]
pub struct ThreadData {
    /// RSP of the kernel stack (or of the user stack while a syscall
    /// runs).
    pub kernel_rsp: u64,
    /// RSP of the user task that entered the running syscall.
    pub user_tmp_rsp: u64,
}

/// Builds this thread's record as kernel init installs it: the boot stack
/// pointer saved by the entry assembly, and no user stack yet. The record
/// must never be installed with an absent kernel stack, or the first
/// `syscall` instruction would load RSP 0.
pub fn init_thread_data(kernel_rsp: u64) -> (td: ThreadData)
    requires
        kernel_rsp != 0,
    ensures
        td == (ThreadData { kernel_rsp, user_tmp_rsp: 0 }),
{
    ThreadData { kernel_rsp, user_tmp_rsp: 0 }
}

/// The model-specific registers the one-time syscall setup programs.
#[derive(Clone, Copy, Debug, PartialEq, Eq, Structural)]
pub struct SyscallMsrConfig {
    /// LSTAR: the syscall-entry RIP, pointing at the assembly trampoline.
    pub lstar: u64,
    /// SFMASK: RFLAGS bits cleared on entry; always includes the
    /// interrupt-enable flag.
    pub sfmask: u64,
    /// The syscall-extensions bit set in EFER.
    pub efer_syscall_extensions: bool,
}

/// One-time fast-syscall setup: keep whatever the mask already clears,
/// and always clear the interrupt-enable flag (bit 9) on entry — the
/// kernel has a single per-thread stack and must not take interrupts
/// inside a syscall body. `syscall_rip` is the trampoline's address,
/// `current_sfmask` the mask read back from the MSR.
pub fn init(syscall_rip: u64, current_sfmask: u64) -> (r: SyscallMsrConfig)
    ensures
        r.lstar == syscall_rip,
        r.sfmask == current_sfmask | 0x200,
        r.sfmask & 0x200 == 0x200,
        r.efer_syscall_extensions,
{
    let sfmask = current_sfmask | 0x200;
    proof {
        assert((current_sfmask | 0x200) & 0x200 == 0x200) by (bit_vector);
    }
    SyscallMsrConfig { lstar: syscall_rip, sfmask, efer_syscall_extensions: true }
}

/// How a syscall wants to touch a user buffer.
#[derive(Clone, Copy, Debug, PartialEq, Eq, Structural)]
pub enum ReadAccess {
    ReadOnly,
    ReadWrite,
}

/// One user page is acceptable for the given access: mapped,
/// user-accessible, and writable when the kernel will write it.
pub open spec fn user_page_ok(space: AddressSpace, page: u64, access: ReadAccess) -> bool {
    &&& space@.contains_key(page)
    &&& space@[page].flags.user_accessible
    &&& (access is ReadWrite ==> space@[page].flags.writable)
}

/// Ensures that a user pointer is properly mapped with user access, and
/// that its page is writable if the access will write.
pub fn check_user_addr(space: &AddressSpace, addr: u64, access: ReadAccess) -> (r: Result<
    (),
    Error,
>)
    requires
        space.wf(),
    ensures
        r is Ok <==> user_page_ok(*space, spec_page_base(addr), access),
        r is Err ==> r == Err::<(), Error>(Error::InvalidArgument),
{
    match space.translate(addr) {
        crate::paging::TranslateResult::NotMapped => Err(Error::InvalidArgument),
        crate::paging::TranslateResult::InvalidFrameAddress(_) => Err(Error::InvalidArgument),
        crate::paging::TranslateResult::Mapped { frame: _, flags } => {
            if !flags.user_accessible {
                return Err(Error::InvalidArgument);
            }
            match access {
                ReadAccess::ReadOnly => Ok(()),
                ReadAccess::ReadWrite => {
                    if flags.writable {
                        Ok(())
                    } else {
                        Err(Error::InvalidArgument)
                    }
                },
            }
        },
    }
}

/// A whole user buffer is acceptable: its length is within the signed
/// machine range (and the platform's word), its last byte exists, and
/// every byte lies on an acceptable user page. An empty buffer is always
/// acceptable.
pub open spec fn user_range_ok(space: AddressSpace, ptr: u64, len: u64, access: ReadAccess) -> bool {
    &&& len <= MAX_RW_LEN
    &&& len <= usize::MAX
    &&& (len == 0 || ptr + len - 1 <= u64::MAX)
    &&& forall|a: u64|
        ptr <= a && a < ptr + len ==> user_page_ok(*&space, #[trigger] spec_page_base(a), access)
}

/// Validates the user buffer `[ptr, ptr + len)` for the given access,
/// walking every page it covers. Succeeds exactly when the whole buffer is
/// acceptable; any failure is an invalid-argument error.
pub fn validate_user_buffer(space: &AddressSpace, ptr: u64, len: u64, access: ReadAccess) -> (r:
    Result<(), Error>)
    requires
        space.wf(),
    ensures
        r is Ok <==> user_range_ok(*space, ptr, len, access),
        r is Err ==> r == Err::<(), Error>(Error::InvalidArgument),
{
    if len > MAX_RW_LEN {
        return Err(Error::InvalidArgument);
    }
    if len > usize::MAX as u64 {
        return Err(Error::InvalidArgument);
    }
    if len == 0 {
        return Ok(());
    }
    if ptr > u64::MAX - (len - 1) {
        return Err(Error::InvalidArgument);
    }
    let last_byte = ptr + (len - 1);
    let first = page_base(ptr);
    let last = page_base(last_byte);
    let fi = first / PAGE_SIZE;
    let li = last / PAGE_SIZE;
    proof {
        lemma_page_base_decompose(ptr);
        lemma_page_base_decompose(last_byte);
        assert(first == fi * PAGE_SIZE);
        assert(last == li * PAGE_SIZE);
    }
    let mut i = fi;
    while i <= li
        invariant
            space.wf(),
            len > 0,
            ptr + len - 1 <= u64::MAX,
            last_byte == ptr + len - 1,
            first == spec_page_base(ptr),
            last == spec_page_base(last_byte),
            first == fi * PAGE_SIZE,
            last == li * PAGE_SIZE,
            fi <= li,
            fi <= i <= li + 1,
            forall|j: u64|
                fi <= j && j < i ==> user_page_ok(*space, (#[trigger] (j * PAGE_SIZE)) as u64, access),
        decreases li + 1 - i,
    {
        let q = i * PAGE_SIZE;
        proof {
            vstd::arithmetic::div_mod::lemma_mod_multiples_basic(i as int, PAGE_SIZE as int);
            assert(q % PAGE_SIZE == 0);
            crate::addr::lemma_page_base_of_aligned(q);
        }
        match check_user_addr(space, q, access) {
            Ok(()) => {},
            Err(e) => {
                proof {
                    let a: u64 = if i == fi {
                        ptr
                    } else {
                        q
                    };
                    if i != fi {
                        assert(q >= first + PAGE_SIZE) by (nonlinear_arith)
                            requires
                                q == i * PAGE_SIZE,
                                first == fi * PAGE_SIZE,
                                i >= fi + 1,
                                PAGE_SIZE == 4096,
                        ;
                        assert(q <= last) by (nonlinear_arith)
                            requires
                                q == i * PAGE_SIZE,
                                last == li * PAGE_SIZE,
                                i <= li,
                                PAGE_SIZE == 4096,
                        ;
                    }
                    assert(ptr <= a && a < ptr + len);
                    assert(spec_page_base(a) == q);
                    assert(!user_page_ok(*space, spec_page_base(a), access));
                }
                return Err(e);
            },
        }
        i = i + 1;
    }
    proof {
        assert forall|a: u64| ptr <= a && a < ptr + len implies user_page_ok(
            *space,
            #[trigger] spec_page_base(a),
            access,
        ) by {
            lemma_page_base_monotonic(ptr, a);
            lemma_page_base_monotonic(a, last_byte);
            lemma_page_base_decompose(a);
            let j = spec_page_base(a) / PAGE_SIZE;
            assert(spec_page_base(a) == j * PAGE_SIZE);
            assert(fi <= j <= li) by (nonlinear_arith)
                requires
                    fi * PAGE_SIZE <= j * PAGE_SIZE <= li * PAGE_SIZE,
                    PAGE_SIZE == 4096,
            ;
            assert(user_page_ok(*space, (j * PAGE_SIZE) as u64, access));
        };
    }
    Ok(())
}

/// Copies the bytes to the text-output device and reports how many were
/// written: the device receives exactly the buffer, appended in order.
pub fn write(fd: u64, bytes: &Vec<u8>, device: &mut TextDevice) -> (r: Result<u64, Error>)
    requires
        bytes@.len() <= MAX_RW_LEN,
    ensures
        r == Ok::<u64, Error>(bytes@.len() as u64),
        final(device).bytes@ == old(device).bytes@ + bytes@,
{
    device.print_bytes(bytes);
    Ok(bytes.len() as u64)
}

/// Reads from a descriptor into the buffer. For now a stub: it reports
/// the requested length and leaves the buffer untouched, pending a real
/// wiring to the scancode queue.
pub fn read(fd: u64, bytes: &mut Vec<u8>) -> (r: Result<u64, Error>)
    requires
        old(bytes)@.len() <= MAX_RW_LEN,
    ensures
        r == Ok::<u64, Error>(old(bytes)@.len() as u64),
        final(bytes)@ == old(bytes)@,
{
    Ok(bytes.len() as u64)
}

/// What a dispatched syscall asks of the machine afterwards: return to
/// user code with a value in RAX, or end the process.
#[derive(Clone, Copy, Debug, PartialEq, Eq, Structural)]
pub enum SyscallOutcome {
    Return(u64),
    Exit(u8),
}

/// Ends the process. There is no scheduler to hand control to, so the
/// shell re-enables interrupts and parks the CPU in the idle-halt loop;
/// this call never returns to the user program.
pub fn exit(code: u8) -> (r: SyscallOutcome)
    ensures
        r == SyscallOutcome::Exit(code),
{
    SyscallOutcome::Exit(code)
}

} // verus!
