//! The interrupt table's shape and policy. Installing handlers and
//! acknowledging the PIC are privileged operations of the hardware shell;
//! this module states which vector gets which handler, on which interrupt
//! stack, and what each handler decides.

use vstd::prelude::*;

use crate::gdt::{DOUBLE_FAULT_STACK_INDEX, PAGE_FAULT_STACK_INDEX};
use crate::keyboard::{add_scancode, ScancodeStream, SCANCODE_QUEUE_CAPACITY};

verus! {

/// First vector of the primary PIC.
pub const PIC_1_OFFSET: u8 = 32;

/// First vector of the secondary PIC.
pub const PIC_2_OFFSET: u8 = PIC_1_OFFSET + 8;

/// Hardware interrupts this kernel services.
#[derive(Clone, Copy, Debug, PartialEq, Eq, Structural)]
pub enum InterruptIndex {
    Timer,
    Keyboard,
}

impl InterruptIndex {
    /// The interrupt's vector number.
    pub open spec fn spec_vector(self) -> u8 {
        match self {
            InterruptIndex::Timer => PIC_1_OFFSET,
            InterruptIndex::Keyboard => (PIC_1_OFFSET + 1) as u8,
        }
    }

    /// The interrupt's vector number.
    pub fn as_u8(self) -> (r: u8)
        ensures
            r == self.spec_vector(),
    {
        match self {
            InterruptIndex::Timer => PIC_1_OFFSET,
            InterruptIndex::Keyboard => PIC_1_OFFSET + 1,
        }
    }

    /// The interrupt's vector number, widened for table indexing.
    pub fn as_usize(self) -> (r: usize)
        ensures
            r == self.spec_vector(),
    {
        self.as_u8() as usize
    }
}

/// What a handler does once it has run.
#[derive(Clone, Copy, Debug, PartialEq, Eq, Structural)]
pub enum HandlerPolicy {
    /// Log the event and return to the interrupted code (breakpoint).
    LogAndReturn,
    /// Log the event and halt (divide error).
    LogAndHalt,
    /// Fatal: print a diagnostic and never return (double fault,
    /// page fault).
    Panic,
    /// Acknowledge the PIC and return (timer).
    EndOfInterrupt,
    /// Read the scancode, queue it, acknowledge the PIC, return
    /// (keyboard).
    EnqueueScancode,
}

/// One installed IDT entry: its vector, the interrupt-stack-table slot it
/// runs on (if any), and its policy.
#[derive(Clone, Copy, Debug, PartialEq, Eq, Structural)]
pub struct IdtEntry {
    pub vector: u8,
    pub has_ist: bool,
    pub ist_index: u16,
    pub policy: HandlerPolicy,
}

/// The handlers this kernel installs.
#[derive(Clone, Copy, Debug, PartialEq, Eq, Structural)]
pub struct IdtConfig {
    pub breakpoint: IdtEntry,
    pub divide_error: IdtEntry,
    pub double_fault: IdtEntry,
    pub page_fault: IdtEntry,
    pub timer: IdtEntry,
    pub keyboard: IdtEntry,
}

/// Builds the kernel's interrupt table: breakpoint and divide error on the
/// normal stack, double fault and page fault on their dedicated IST stacks
/// so a stack overflow still reaches a diagnostic, and the two PIC lines.
pub fn init_idt() -> (idt: IdtConfig)
    ensures
        idt.breakpoint == (IdtEntry {
            vector: 3,
            has_ist: false,
            ist_index: 0,
            policy: HandlerPolicy::LogAndReturn,
        }),
        idt.divide_error == (IdtEntry {
            vector: 0,
            has_ist: false,
            ist_index: 0,
            policy: HandlerPolicy::LogAndHalt,
        }),
        idt.double_fault == (IdtEntry {
            vector: 8,
            has_ist: true,
            ist_index: DOUBLE_FAULT_STACK_INDEX,
            policy: HandlerPolicy::Panic,
        }),
        idt.page_fault == (IdtEntry {
            vector: 14,
            has_ist: true,
            ist_index: PAGE_FAULT_STACK_INDEX,
            policy: HandlerPolicy::Panic,
        }),
        idt.timer == (IdtEntry {
            vector: InterruptIndex::Timer.spec_vector(),
            has_ist: false,
            ist_index: 0,
            policy: HandlerPolicy::EndOfInterrupt,
        }),
        idt.keyboard == (IdtEntry {
            vector: InterruptIndex::Keyboard.spec_vector(),
            has_ist: false,
            ist_index: 0,
            policy: HandlerPolicy::EnqueueScancode,
        }),
{
    IdtConfig {
        breakpoint: IdtEntry {
            vector: 3,
            has_ist: false,
            ist_index: 0,
            policy: HandlerPolicy::LogAndReturn,
        },
        divide_error: IdtEntry {
            vector: 0,
            has_ist: false,
            ist_index: 0,
            policy: HandlerPolicy::LogAndHalt,
        },
        double_fault: IdtEntry {
            vector: 8,
            has_ist: true,
            ist_index: DOUBLE_FAULT_STACK_INDEX,
            policy: HandlerPolicy::Panic,
        },
        page_fault: IdtEntry {
            vector: 14,
            has_ist: true,
            ist_index: PAGE_FAULT_STACK_INDEX,
            policy: HandlerPolicy::Panic,
        },
        timer: IdtEntry {
            vector: InterruptIndex::Timer.as_u8(),
            has_ist: false,
            ist_index: 0,
            policy: HandlerPolicy::EndOfInterrupt,
        },
        keyboard: IdtEntry {
            vector: InterruptIndex::Keyboard.as_u8(),
            has_ist: false,
            ist_index: 0,
            policy: HandlerPolicy::EnqueueScancode,
        },
    }
}

/// The timer handler only acknowledges the PIC: the vector to send the end
/// of interrupt for.
pub fn timer_interrupt_handler() -> (eoi: u8)
    ensures
        eoi == InterruptIndex::Timer.spec_vector(),
{
    InterruptIndex::Timer.as_u8()
}

/// The keyboard handler queues the scancode read from the port and
/// acknowledges the PIC. It reuses the timer's vector for the
/// acknowledgment: both lines sit on the primary PIC, for which any
/// vector in its range acknowledges the same chip.
pub fn keyboard_interrupt_handler(queue: &mut ScancodeStream, scancode: u8) -> (eoi: u8)
    ensures
        eoi == InterruptIndex::Timer.spec_vector(),
        old(queue).scancodes@.len() < SCANCODE_QUEUE_CAPACITY ==> final(queue).scancodes@ == old(
            queue,
        ).scancodes@.push(scancode),
        old(queue).scancodes@.len() >= SCANCODE_QUEUE_CAPACITY ==> *final(queue) == *old(queue),
{
    add_scancode(queue, scancode);
    InterruptIndex::Timer.as_u8()
}

} // verus!
