//! GDT/TSS layout and fast-syscall MSR values.
//!
//! The descriptor order is load-bearing: the `syscall`/`sysret` pair
//! derives the kernel and user CS/SS selectors from fixed offsets off the
//! two base selectors programmed into the STAR MSR, so the table must hold
//! kernel-code, kernel-data, user-data, user-code, TSS, and the second
//! kernel-data descriptor in exactly that order. Loading the table and
//! writing the MSRs are privileged instructions and stay with the hardware
//! shell; this module computes and checks what gets installed.

use vstd::prelude::*;

verus! {

/// IST slot of the double-fault stack.
pub const DOUBLE_FAULT_STACK_INDEX: u16 = 0;

/// IST slot of the page-fault stack.
pub const PAGE_FAULT_STACK_INDEX: u16 = 1;

/// Bytes in each dedicated interrupt stack (20 KiB).
pub const IST_STACK_SIZE: u64 = 1024 * 20;

/// The six selectors of the kernel's GDT, in descriptor order.
#[derive(Clone, Copy, Debug, PartialEq, Eq, Structural)]
pub struct Selectors {
    pub kernel_code_selector: u16,
    pub kernel_data_selector: u16,
    pub user_code_selector: u16,
    pub user_data_selector: u16,
    pub tss_selector: u16,
    pub kernel_data_selector2: u16,
}

/// A segment selector is its descriptor index times eight plus the
/// requested privilege level.
pub open spec fn spec_selector(index: u16, rpl: u16) -> u16 {
    (index * 8 + rpl) as u16
}

/// Builds the selectors that the fixed GDT layout yields: kernel-code,
/// kernel-data, user-data, user-code, the two-slot TSS descriptor, and a
/// second kernel-data descriptor backing the per-CPU segment base.
pub fn gdt_selectors() -> (s: Selectors)
    ensures
        s.kernel_code_selector == spec_selector(1, 0),
        s.kernel_data_selector == spec_selector(2, 0),
        s.user_data_selector == spec_selector(3, 3),
        s.user_code_selector == spec_selector(4, 3),
        s.tss_selector == spec_selector(5, 0),
        s.kernel_data_selector2 == spec_selector(7, 0),
{
    let kernel_code_selector: u16 = 1 * 8;
    let kernel_data_selector: u16 = 2 * 8;
    let user_data_selector: u16 = 3 * 8 + 3;
    let user_code_selector: u16 = 4 * 8 + 3;
    // The TSS descriptor is 16 bytes wide and takes two GDT slots.
    let tss_selector: u16 = 5 * 8;
    let kernel_data_selector2: u16 = 7 * 8;
    Selectors {
        kernel_code_selector,
        kernel_data_selector,
        user_code_selector,
        user_data_selector,
        tss_selector,
        kernel_data_selector2,
    }
}

/// What the STAR MSR demands of the four selectors: on `syscall` the CPU
/// loads CS from the kernel base and SS from the next descriptor; on
/// `sysret` it loads SS from the user base plus one descriptor and CS from
/// the base plus two. Kernel selectors must be ring 0, user selectors
/// ring 3.
pub open spec fn star_selectors_ok(
    user_code: u16,
    user_data: u16,
    kernel_code: u16,
    kernel_data: u16,
) -> bool {
    &&& kernel_data == kernel_code + 8
    &&& user_code == user_data + 8
    &&& user_data >= 8
    &&& kernel_code % 8 == 0
    &&& kernel_data % 8 == 0
    &&& user_code % 8 == 3
    &&& user_data % 8 == 3
}

/// The STAR MSR value for valid selectors: user base (user-data minus one
/// descriptor) in bits 63..48, kernel base in bits 47..32.
pub open spec fn spec_star_value(user_data: u16, kernel_code: u16) -> u64 {
    ((user_data - 8) * 0x1_0000_0000_0000 + kernel_code * 0x1_0000_0000) as u64
}

/// Rejected STAR selector layouts.
#[derive(Clone, Copy, Debug, PartialEq, Eq, Structural)]
pub enum StarError {
    /// Kernel data does not follow kernel code, or a kernel selector is
    /// not ring 0.
    InvalidKernelSelectors,
    /// User code does not follow user data, or a user selector is not
    /// ring 3.
    InvalidUserSelectors,
}

/// Computes the STAR MSR value for the given selectors, refusing any
/// layout the `syscall`/`sysret` offset rules would break.
pub fn star_msr_value(user_code: u16, user_data: u16, kernel_code: u16, kernel_data: u16) -> (r:
    Result<u64, StarError>)
    ensures
        r is Ok <==> star_selectors_ok(user_code, user_data, kernel_code, kernel_data),
        r is Ok ==> r == Ok::<u64, StarError>(spec_star_value(user_data, kernel_code)),
        !(kernel_data == kernel_code + 8 && kernel_code % 8 == 0 && kernel_data % 8 == 0) ==> r
            == Err::<u64, StarError>(StarError::InvalidKernelSelectors),
{
    if !(kernel_code <= 0xFFF7 && kernel_data == kernel_code + 8 && kernel_code % 8 == 0
        && kernel_data % 8 == 0) {
        return Err(StarError::InvalidKernelSelectors);
    }
    if !(8 <= user_data && user_data <= 0xFFF7 && user_code == user_data + 8 && user_code % 8 == 3
        && user_data % 8 == 3) {
        return Err(StarError::InvalidUserSelectors);
    }
    let high = (user_data - 8) as u64;
    let low = kernel_code as u64;
    Ok(high * 0x1_0000_0000_0000 + low * 0x1_0000_0000)
}

/// The fixed GDT order satisfies the fast-syscall selector rules; this is
/// why the descriptor order of `gdt_selectors` matters.
pub proof fn lemma_gdt_order_supports_fast_syscall()
    ensures
        star_selectors_ok(
            spec_selector(4, 3),
            spec_selector(3, 3),
            spec_selector(1, 0),
            spec_selector(2, 0),
        ),
{
}

/// The RFLAGS mask programmed into SFMASK: bit 9, the interrupt-enable
/// flag, is always cleared on syscall entry so the whole syscall body runs
/// with interrupts off on the single kernel stack.
pub fn syscall_flag_mask() -> (r: u64)
    ensures
        r == 0x200,
{
    0x200
}

/// RFLAGS installed for ring-3 entry: the interrupt-enable flag (bit 9,
/// 0x200) plus the always-one reserved bit (bit 1).
pub fn user_mode_flags() -> (r: u64)
    ensures
        r == 0x202,
{
    0x200 + 2
}

/// Everything the one-time GDT/MSR setup installs.
#[derive(Clone, Copy, Debug, PartialEq, Eq, Structural)]
pub struct GdtConfig {
    pub selectors: Selectors,
    /// STAR MSR value for the fast-syscall selector bases.
    pub star: u64,
    /// SFMASK MSR value; always clears the interrupt flag on entry.
    pub sfmask: u64,
    /// The syscall-extensions bit set in EFER.
    pub efer_syscall_extensions: bool,
}

/// Setup failures.
#[derive(Clone, Copy, Debug, PartialEq, Eq, Structural)]
pub enum GdtError {
    /// The CPU cannot write segment bases from ring 0, so the per-CPU
    /// record would be unreachable; refuse to proceed.
    FsGsBaseUnsupported,
}

/// One-time GDT/TSS/MSR setup. `has_fsgsbase` is the CPUID answer on
/// whether ring 0 may write the segment base registers; without it the
/// per-CPU data scheme cannot work and setup is refused.
pub fn gdt_init(has_fsgsbase: bool) -> (r: Result<GdtConfig, GdtError>)
    ensures
        r is Ok <==> has_fsgsbase,
        r is Ok ==> r == Ok::<GdtConfig, GdtError>(
            GdtConfig {
                selectors: Selectors {
                    kernel_code_selector: spec_selector(1, 0),
                    kernel_data_selector: spec_selector(2, 0),
                    user_code_selector: spec_selector(4, 3),
                    user_data_selector: spec_selector(3, 3),
                    tss_selector: spec_selector(5, 0),
                    kernel_data_selector2: spec_selector(7, 0),
                },
                star: spec_star_value(spec_selector(3, 3), spec_selector(1, 0)),
                sfmask: 0x200,
                efer_syscall_extensions: true,
            },
        ),
{
    if !has_fsgsbase {
        return Err(GdtError::FsGsBaseUnsupported);
    }
    let selectors = gdt_selectors();
    let star = match star_msr_value(
        selectors.user_code_selector,
        selectors.user_data_selector,
        selectors.kernel_code_selector,
        selectors.kernel_data_selector,
    ) {
        Ok(v) => v,
        Err(_) => {
            proof {
                assert(false);
            }
            0
        },
    };
    let sfmask = syscall_flag_mask();
    Ok(GdtConfig { selectors, star, sfmask, efer_syscall_extensions: true })
}

} // verus!
