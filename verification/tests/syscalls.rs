use zulu_os::device::TextDevice;
use zulu_os::flags::PageTableFlags;
use zulu_os::handler::{
    syscall_handler_inner, syscall_round, TrampolineResult, KERNEL_RSP_OFFSET, USER_TMP_RSP_OFFSET,
};
use zulu_os::paging::AddressSpace;
use zulu_os::syscall::{
    encode_error, exit, init_thread_data, read, syscall_from_number, validate_user_buffer, Error,
    ReadAccess, Syscall, SyscallOutcome, MAX_RW_LEN,
};

fn user_page_flags(writable: bool) -> PageTableFlags {
    PageTableFlags { present: true, writable, user_accessible: true, no_execute: true }
}

fn user_space() -> AddressSpace {
    let mut space = AddressSpace::new();
    space.map_to(0x4000, 0x9000, user_page_flags(true)).unwrap();
    space.map_to(0x5000, 0xa000, user_page_flags(true)).unwrap();
    space
}

#[test]
fn syscall_numbers_decode() {
    assert_eq!(syscall_from_number(1), Some(Syscall::Read));
    assert_eq!(syscall_from_number(2), Some(Syscall::Write));
    assert_eq!(syscall_from_number(3), Some(Syscall::Exit));
    assert_eq!(syscall_from_number(0), None);
    assert_eq!(syscall_from_number(4), None);
    assert_eq!(syscall_from_number(99), None);
}

#[test]
fn error_encoding_is_negated_code() {
    assert_eq!(encode_error(Error::NoSys), u64::MAX);
    assert_eq!(encode_error(Error::InvalidArgument), u64::MAX - 1);
}

#[test]
fn validate_read_succeeds_on_mapped_user_range() {
    let space = user_space();
    assert_eq!(validate_user_buffer(&space, 0x4100, 0x1f00, ReadAccess::ReadOnly), Ok(()));
    assert_eq!(validate_user_buffer(&space, 0x4100, 0x1f00, ReadAccess::ReadWrite), Ok(()));
}

#[test]
fn validate_empty_buffer_succeeds() {
    let space = AddressSpace::new();
    assert_eq!(validate_user_buffer(&space, 0x4000, 0, ReadAccess::ReadOnly), Ok(()));
}

#[test]
fn validate_write_needs_writable_page() {
    let mut space = AddressSpace::new();
    space.map_to(0x4000, 0x9000, user_page_flags(false)).unwrap();
    assert_eq!(validate_user_buffer(&space, 0x4000, 8, ReadAccess::ReadOnly), Ok(()));
    assert_eq!(
        validate_user_buffer(&space, 0x4000, 8, ReadAccess::ReadWrite),
        Err(Error::InvalidArgument)
    );
}

#[test]
fn validate_needs_user_accessible_page() {
    let mut space = AddressSpace::new();
    let kernel_only =
        PageTableFlags { present: true, writable: true, user_accessible: false, no_execute: true };
    space.map_to(0x4000, 0x9000, kernel_only).unwrap();
    assert_eq!(
        validate_user_buffer(&space, 0x4000, 8, ReadAccess::ReadOnly),
        Err(Error::InvalidArgument)
    );
}

#[test]
fn validate_rejects_oversize_length() {
    let space = user_space();
    assert_eq!(
        validate_user_buffer(&space, 0x4000, MAX_RW_LEN + 1, ReadAccess::ReadOnly),
        Err(Error::InvalidArgument)
    );
}

#[test]
fn validate_rejects_straddle_into_unmapped_page() {
    let mut space = AddressSpace::new();
    space.map_to(0x4000, 0x9000, user_page_flags(true)).unwrap();
    assert_eq!(validate_user_buffer(&space, 0x4ff0, 16, ReadAccess::ReadOnly), Ok(()));
    assert_eq!(
        validate_user_buffer(&space, 0x4ff0, 17, ReadAccess::ReadOnly),
        Err(Error::InvalidArgument)
    );
}

#[test]
fn write_hands_device_exactly_the_bytes() {
    let mut device = TextDevice::new();
    let payload: Vec<u8> = b"Hello".to_vec();
    assert_eq!(zulu_os::syscall::write(0, &payload, &mut device), Ok(5));
    assert_eq!(device.bytes, b"Hello".to_vec());
    let more: Vec<u8> = b", world".to_vec();
    assert_eq!(zulu_os::syscall::write(0, &more, &mut device), Ok(7));
    assert_eq!(device.bytes, b"Hello, world".to_vec());
}

#[test]
fn read_stub_reports_length_and_leaves_buffer() {
    let mut buf: Vec<u8> = vec![1, 2, 3];
    assert_eq!(read(0, &mut buf), Ok(3));
    assert_eq!(buf, vec![1, 2, 3]);
}

#[test]
fn exit_yields_exit_outcome() {
    assert_eq!(exit(7), SyscallOutcome::Exit(7));
}

#[test]
fn dispatch_unknown_numbers_return_nosys() {
    let space = user_space();
    let mut device = TextDevice::new();
    for num in [0u64, 4, 99, 300, u64::MAX] {
        let r = syscall_handler_inner(&space, &mut device, num, 0, 0, 0, 0, 0);
        assert_eq!(r, SyscallOutcome::Return(u64::MAX));
    }
    assert!(device.bytes.is_empty());
}

#[test]
fn dispatch_write_copies_to_device() {
    let mut space = user_space();
    let text: Vec<u8> = b"Test print".to_vec();
    space.write_bytes(0x4100, &text);
    let mut device = TextDevice::new();
    let r = syscall_handler_inner(&space, &mut device, 2, 0, 0x4100, 10, 0, 0);
    assert_eq!(r, SyscallOutcome::Return(10));
    assert_eq!(device.bytes, b"Test print".to_vec());
}

#[test]
fn dispatch_write_null_pointer_is_invalid() {
    let space = user_space();
    let mut device = TextDevice::new();
    let r = syscall_handler_inner(&space, &mut device, 2, 0, 0, 1, 0, 0);
    assert_eq!(r, SyscallOutcome::Return(u64::MAX - 1));
    assert!(device.bytes.is_empty());
}

#[test]
fn dispatch_read_reports_length() {
    let space = user_space();
    let mut device = TextDevice::new();
    let r = syscall_handler_inner(&space, &mut device, 1, 0, 0x4000, 16, 0, 0);
    assert_eq!(r, SyscallOutcome::Return(16));
}

#[test]
fn dispatch_exit_truncates_code() {
    let space = user_space();
    let mut device = TextDevice::new();
    let r = syscall_handler_inner(&space, &mut device, 3, 0x102, 0, 0, 0, 0);
    assert_eq!(r, SyscallOutcome::Exit(2));
}

#[test]
fn thread_record_layout_offsets() {
    assert_eq!(KERNEL_RSP_OFFSET, 0);
    assert_eq!(USER_TMP_RSP_OFFSET, 8);
}

#[test]
fn trampoline_restores_user_context() {
    let mut td = init_thread_data(0xcafe_0000);
    let mut space = user_space();
    let text: Vec<u8> = b"hi".to_vec();
    space.write_bytes(0x4000, &text);
    let mut device = TextDevice::new();
    let r = syscall_round(
        &mut td,
        &space,
        &mut device,
        0x66_1234,
        0xdead_ef00,
        0x246,
        2,
        0,
        0x4000,
        2,
        0,
        0,
    );
    assert_eq!(
        r,
        TrampolineResult::Sysret { rax: 2, rip: 0x66_1234, rsp: 0xdead_ef00, rflags: 0x246 }
    );
    assert_eq!(td.kernel_rsp, 0xcafe_0000);
    assert_eq!(td.user_tmp_rsp, 0);
    assert_eq!(device.bytes, b"hi".to_vec());
}

#[test]
fn trampoline_exit_halts() {
    let mut td = init_thread_data(0xcafe_0000);
    let space = user_space();
    let mut device = TextDevice::new();
    let r = syscall_round(
        &mut td,
        &space,
        &mut device,
        0x66_1234,
        0xdead_ef00,
        0x246,
        3,
        0,
        0,
        0,
        0,
        0,
    );
    assert_eq!(r, TrampolineResult::Halted { code: 0 });
    assert_eq!(td.kernel_rsp, 0xcafe_0000);
}

#[test]
fn msr_setup_always_masks_interrupts() {
    let config = zulu_os::syscall::init(0xffff_8000_0020_0000, 0x4000);
    assert_eq!(config.lstar, 0xffff_8000_0020_0000);
    assert_eq!(config.sfmask, 0x4200);
    assert_eq!(config.sfmask & 0x200, 0x200);
    assert!(config.efer_syscall_extensions);
}
