use zulu_os::interrupts::{
    init_idt, keyboard_interrupt_handler, timer_interrupt_handler, HandlerPolicy, InterruptIndex,
    PIC_1_OFFSET, PIC_2_OFFSET,
};
use zulu_os::keyboard::{add_scancode, ScancodeStream, SCANCODE_QUEUE_CAPACITY};

#[test]
fn pic_offsets() {
    assert_eq!(PIC_1_OFFSET, 32);
    assert_eq!(PIC_2_OFFSET, 40);
}

#[test]
fn interrupt_index_vectors() {
    assert_eq!(InterruptIndex::Timer.as_u8(), 32);
    assert_eq!(InterruptIndex::Keyboard.as_u8(), 33);
    assert_eq!(InterruptIndex::Timer.as_usize(), 32);
    assert_eq!(InterruptIndex::Keyboard.as_usize(), 33);
}

#[test]
fn breakpoint_handler_returns_control() {
    // A breakpoint must be logged and execution must continue.
    let idt = init_idt();
    assert_eq!(idt.breakpoint.vector, 3);
    assert!(!idt.breakpoint.has_ist);
    assert_eq!(idt.breakpoint.policy, HandlerPolicy::LogAndReturn);
}

#[test]
fn double_fault_runs_on_its_own_stack() {
    // The double-fault handler sits on IST slot 0 so that a kernel stack
    // overflow still reaches it instead of triple-faulting.
    let idt = init_idt();
    assert_eq!(idt.double_fault.vector, 8);
    assert!(idt.double_fault.has_ist);
    assert_eq!(idt.double_fault.ist_index, 0);
    assert_eq!(idt.double_fault.policy, HandlerPolicy::Panic);
}

#[test]
fn page_fault_runs_on_its_own_stack() {
    let idt = init_idt();
    assert_eq!(idt.page_fault.vector, 14);
    assert!(idt.page_fault.has_ist);
    assert_eq!(idt.page_fault.ist_index, 1);
    assert_eq!(idt.page_fault.policy, HandlerPolicy::Panic);
}

#[test]
fn divide_error_and_pic_lines() {
    let idt = init_idt();
    assert_eq!(idt.divide_error.vector, 0);
    assert_eq!(idt.divide_error.policy, HandlerPolicy::LogAndHalt);
    assert_eq!(idt.timer.vector, 32);
    assert_eq!(idt.timer.policy, HandlerPolicy::EndOfInterrupt);
    assert_eq!(idt.keyboard.vector, 33);
    assert_eq!(idt.keyboard.policy, HandlerPolicy::EnqueueScancode);
}

#[test]
fn scancodes_come_back_in_order() {
    let mut stream = ScancodeStream::new();
    assert_eq!(stream.poll_next(), None);
    assert!(add_scancode(&mut stream, 0x1e));
    assert!(add_scancode(&mut stream, 0x30));
    assert_eq!(stream.poll_next(), Some(0x1e));
    assert_eq!(stream.poll_next(), Some(0x30));
    assert_eq!(stream.poll_next(), None);
}

#[test]
fn full_queue_drops_new_scancodes() {
    let mut stream = ScancodeStream::new();
    for i in 0..SCANCODE_QUEUE_CAPACITY {
        assert!(add_scancode(&mut stream, i as u8));
    }
    assert!(!add_scancode(&mut stream, 0xff));
    assert_eq!(stream.scancodes.len(), SCANCODE_QUEUE_CAPACITY);
    assert_eq!(stream.poll_next(), Some(0));
}

#[test]
fn keyboard_handler_queues_and_acknowledges() {
    let mut stream = ScancodeStream::new();
    let eoi = keyboard_interrupt_handler(&mut stream, 0x2a);
    assert_eq!(eoi, InterruptIndex::Timer.as_u8());
    assert_eq!(stream.poll_next(), Some(0x2a));
}

#[test]
fn timer_handler_acknowledges() {
    assert_eq!(timer_interrupt_handler(), 32);
}
