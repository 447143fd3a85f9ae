//! Syscall entry and dispatch.
//!
//! The real entry point is a naked assembly stub: it swaps the segment
//! bases, parks the user RSP in the per-CPU record, loads the kernel RSP,
//! saves the user return address and RFLAGS, calls the C-ABI dispatcher,
//! and undoes all of it before `sysretq`. The stub's stack bookkeeping is
//! modelled here as two small functions over the thread record, and the
//! dispatcher itself is ordinary verified code.

use vstd::prelude::*;

use crate::device::TextDevice;
use crate::paging::AddressSpace;
use crate::syscall::{
    encode_error, error_return_value, exit, read, syscall_from_number, user_range_ok,
    validate_user_buffer, Error, ReadAccess, Syscall, SyscallOutcome, ThreadData,
};

verus! {

/// Byte offset of `kernel_rsp` in the thread record; the assembly stub
/// addresses the field with this compile-time constant.
pub const KERNEL_RSP_OFFSET: u64 = 0;

/// Byte offset of `user_tmp_rsp` in the thread record.
pub const USER_TMP_RSP_OFFSET: u64 = 8;

/// Dispatches one syscall: decodes the number, validates the pointer
/// arguments against the active address space, and routes to the handler.
/// Register convention: RDI = number, RSI = arg0 (descriptor or exit
/// code), RDX = arg1 (buffer pointer), R10 = arg2 (buffer length); the
/// remaining two argument registers are unused by the current calls.
pub fn syscall_handler_inner(
    space: &AddressSpace,
    device: &mut TextDevice,
    num: u64,
    arg0: u64,
    arg1: u64,
    arg2: u64,
    arg3: u64,
    arg4: u64,
) -> (r: SyscallOutcome)
    requires
        space.wf(),
    ensures
        !(num == 1 || num == 2 || num == 3) ==> {
            &&& r == SyscallOutcome::Return(error_return_value(Error::NoSys))
            &&& final(device).bytes@ == old(device).bytes@
        },
        num == 1 ==> {
            &&& if user_range_ok(*space, arg1, arg2, ReadAccess::ReadWrite) {
                r == SyscallOutcome::Return(arg2)
            } else {
                r == SyscallOutcome::Return(error_return_value(Error::InvalidArgument))
            }
            &&& final(device).bytes@ == old(device).bytes@
        },
        num == 2 ==> {
            if user_range_ok(*space, arg1, arg2, ReadAccess::ReadOnly) {
                &&& r == SyscallOutcome::Return(arg2)
                &&& final(device).bytes@ == old(device).bytes@ + space.bytes_at(
                    arg1,
                    arg2 as int,
                )
            } else {
                &&& r == SyscallOutcome::Return(error_return_value(Error::InvalidArgument))
                &&& final(device).bytes@ == old(device).bytes@
            }
        },
        num == 3 ==> {
            &&& r == SyscallOutcome::Exit(arg0 as u8)
            &&& final(device).bytes@ == old(device).bytes@
        },
{
    match syscall_from_number(num) {
        None => SyscallOutcome::Return(encode_error(Error::NoSys)),
        Some(Syscall::Read) => {
            match validate_user_buffer(space, arg1, arg2, ReadAccess::ReadWrite) {
                Ok(()) => {
                    // A kernel-side view of the user buffer; the read
                    // stub reports the length without touching it, so
                    // there is nothing to copy back.
                    let mut buf = space.read_bytes(arg1, arg2 as usize);
                    match read(arg0, &mut buf) {
                        Ok(n) => SyscallOutcome::Return(n),
                        Err(e) => SyscallOutcome::Return(encode_error(e)),
                    }
                },
                Err(e) => SyscallOutcome::Return(encode_error(e)),
            }
        },
        Some(Syscall::Write) => {
            match validate_user_buffer(space, arg1, arg2, ReadAccess::ReadOnly) {
                Ok(()) => {
                    let buf = space.read_bytes(arg1, arg2 as usize);
                    match crate::syscall::write(arg0, &buf, device) {
                        Ok(n) => SyscallOutcome::Return(n),
                        Err(e) => SyscallOutcome::Return(encode_error(e)),
                    }
                },
                Err(e) => SyscallOutcome::Return(encode_error(e)),
            }
        },
        Some(Syscall::Exit) => exit(arg0 as u8),
    }
}

/// Entry half of the trampoline's stack swap: park the user RSP in the
/// record, hand back the kernel RSP to switch to. The record must hold a
/// kernel stack whenever user code can execute `syscall`; that is what
/// makes the swap sound.
pub fn syscall_entry_stack_swap(td: &mut ThreadData, user_rsp: u64) -> (kernel_rsp: u64)
    requires
        old(td).kernel_rsp != 0,
        user_rsp != 0,
    ensures
        kernel_rsp == old(td).kernel_rsp,
        final(td).kernel_rsp == old(td).kernel_rsp,
        final(td).user_tmp_rsp == user_rsp,
        final(td).kernel_rsp != 0 && final(td).user_tmp_rsp != 0,
{
    td.user_tmp_rsp = user_rsp;
    td.kernel_rsp
}

/// Exit half of the trampoline's stack swap: store the (possibly
/// adjusted) kernel RSP back, recover the user RSP, and leave the record
/// in its running-user shape with no parked user stack.
pub fn syscall_exit_stack_swap(td: &mut ThreadData, kernel_rsp: u64) -> (user_rsp: u64)
    requires
        old(td).user_tmp_rsp != 0,
        kernel_rsp != 0,
    ensures
        user_rsp == old(td).user_tmp_rsp,
        final(td).kernel_rsp == kernel_rsp,
        final(td).user_tmp_rsp == 0,
        final(td).kernel_rsp != 0,
{
    let user_rsp = td.user_tmp_rsp;
    td.kernel_rsp = kernel_rsp;
    td.user_tmp_rsp = 0;
    user_rsp
}

/// What the trampoline does after the dispatcher returns.
#[derive(Clone, Copy, Debug, PartialEq, Eq, Structural)]
pub enum TrampolineResult {
    /// `sysretq` back to user code: RIP from the saved RCX, RFLAGS from
    /// the saved R11, RSP from the parked user stack, RAX the result.
    Sysret { rax: u64, rip: u64, rsp: u64, rflags: u64 },
    /// The process exited; the kernel idles and never returns to it.
    Halted { code: u8 },
}

/// One full pass through the syscall trampoline: stack swap in, dispatch,
/// stack swap out. On every return to user code the restored RIP, RSP and
/// RFLAGS are exactly the values saved at entry — in particular the
/// interrupt-enable flag comes back unchanged — and the thread record is
/// back in its running-user shape.
pub fn syscall_round(
    td: &mut ThreadData,
    space: &AddressSpace,
    device: &mut TextDevice,
    user_rip: u64,
    user_rsp: u64,
    user_rflags: u64,
    num: u64,
    arg0: u64,
    arg1: u64,
    arg2: u64,
    arg3: u64,
    arg4: u64,
) -> (r: TrampolineResult)
    requires
        space.wf(),
        old(td).kernel_rsp != 0,
        user_rsp != 0,
    ensures
        r matches TrampolineResult::Sysret { rax: _, rip, rsp, rflags } ==> rip == user_rip && rsp
            == user_rsp && rflags == user_rflags,
        syscall_handler_outcome_matches(
            r,
            *space,
            old(device).bytes@,
            final(device).bytes@,
            num,
            arg0,
            arg1,
            arg2,
        ),
        r is Sysret ==> final(td).kernel_rsp == old(td).kernel_rsp && final(td).user_tmp_rsp == 0,
        r is Halted ==> final(td).kernel_rsp == old(td).kernel_rsp && final(td).user_tmp_rsp
            == user_rsp,
{
    let kernel_rsp = syscall_entry_stack_swap(td, user_rsp);
    // The saved RCX (return address) and R11 (user RFLAGS) sit on the
    // kernel stack across this call and come back verbatim.
    let outcome = syscall_handler_inner(space, device, num, arg0, arg1, arg2, arg3, arg4);
    match outcome {
        SyscallOutcome::Return(rax) => {
            let user_rsp_back = syscall_exit_stack_swap(td, kernel_rsp);
            TrampolineResult::Sysret { rax, rip: user_rip, rsp: user_rsp_back, rflags: user_rflags }
        },
        SyscallOutcome::Exit(code) => TrampolineResult::Halted { code },
    }
}

/// The RAX value the dispatcher yields for a returning syscall (numbers
/// other than Exit).
pub open spec fn dispatch_rax(space: AddressSpace, num: u64, arg1: u64, arg2: u64) -> u64 {
    if num == 1 {
        if user_range_ok(space, arg1, arg2, ReadAccess::ReadWrite) {
            arg2
        } else {
            error_return_value(Error::InvalidArgument)
        }
    } else if num == 2 {
        if user_range_ok(space, arg1, arg2, ReadAccess::ReadOnly) {
            arg2
        } else {
            error_return_value(Error::InvalidArgument)
        }
    } else {
        error_return_value(Error::NoSys)
    }
}

/// What the text device holds after the dispatcher: only a valid Write
/// appends, namely exactly the user buffer's bytes.
pub open spec fn dispatch_device_after(
    space: AddressSpace,
    device_before: Seq<u8>,
    num: u64,
    arg1: u64,
    arg2: u64,
) -> Seq<u8> {
    if num == 2 && user_range_ok(space, arg1, arg2, ReadAccess::ReadOnly) {
        device_before + space.bytes_at(arg1, arg2 as int)
    } else {
        device_before
    }
}

/// Ties a trampoline result to the dispatcher's contract: the RAX value
/// or exit code handed back, and the text device's contents, are exactly
/// what the dispatcher's own contract yields for these arguments.
pub open spec fn syscall_handler_outcome_matches(
    r: TrampolineResult,
    space: AddressSpace,
    device_before: Seq<u8>,
    device_after: Seq<u8>,
    num: u64,
    arg0: u64,
    arg1: u64,
    arg2: u64,
) -> bool {
    &&& (num == 3 ==> r == (TrampolineResult::Halted { code: arg0 as u8 }))
    &&& (num != 3 ==> (r matches TrampolineResult::Sysret { rax, .. } && rax == dispatch_rax(
        space,
        num,
        arg1,
        arg2,
    )))
    &&& device_after == dispatch_device_after(space, device_before, num, arg1, arg2)
}

} // verus!
