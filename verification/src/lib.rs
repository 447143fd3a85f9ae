//! Core of a small x86_64 micro-kernel, modelled over plain values so that
//! every decision it makes can be verified: frame allocation from the boot
//! memory map, the bump heap, the page-table view of an address space, ELF
//! loading, the GDT/TSS selector layout, the interrupt table policy, the
//! syscall trampoline's stack bookkeeping, and syscall dispatch with
//! user-pointer validation.
//!
//! Hardware itself (privileged instructions, the real page tables, port and
//! MSR access) lives outside this crate; the functions here compute what the
//! hardware shell installs or obeys.

pub mod addr;
pub mod allocator;
pub mod boot;
pub mod device;
pub mod elf;
pub mod gdt;
pub mod handler;
pub mod interrupts;
pub mod keyboard;
pub mod flags;
pub mod memory;
pub mod paging;
pub mod syscall;

use vstd::prelude::*;

verus! {

/// A test case that the kernel test harness can run.
///
/// The harness's users implement this for their test functions; the serial
/// reporting around each run stays with the hardware shell.
pub trait Testable {
    fn run(&self);
}

/// Runs every test in order. Progress reporting on the serial port and
/// the emulator exit afterwards are I/O and stay with the shell.
pub fn test_runner<T: Testable>(tests: &Vec<T>) {
    let n = tests.len();
    let mut i: usize = 0;
    while i < n
        invariant
            i <= n,
            n == tests.len(),
        decreases n - i,
    {
        tests[i].run();
        i = i + 1;
    }
}

/// Exit status reported to the emulator's debug exit device.
#[derive(Clone, Copy, Debug, PartialEq, Eq, Structural)]
pub enum QemuExitCode {
    Success,
    Failed,
}

impl QemuExitCode {
    /// The value written to the exit port for this status.
    pub fn code(self) -> (r: u32)
        ensures
            self is Success ==> r == 0x10,
            self is Failed ==> r == 0x11,
    {
        match self {
            QemuExitCode::Success => 0x10,
            QemuExitCode::Failed => 0x11,
        }
    }
}

} // verus!
