//! End-to-end runs: boot the model machine, load a user program, and
//! drive its syscalls through the trampoline.

use zulu_os::allocator::BumpAllocator;
use zulu_os::allocator::init_kernel_heap;
use zulu_os::boot::setup_user_stack;
use zulu_os::device::TextDevice;
use zulu_os::elf::{load, LOAD_TEXT_SECTION_AT};
use zulu_os::handler::{syscall_round, TrampolineResult};
use zulu_os::memory::{BootInfoFrameAllocator, MemoryRegion, MemoryRegionKind};
use zulu_os::paging::AddressSpace;
use zulu_os::syscall::init_thread_data;

const PF_X: u32 = 1;
const PF_R: u32 = 4;

fn put_le(bytes: &mut Vec<u8>, off: usize, value: u64, width: usize) {
    for k in 0..width {
        bytes[off + k] = ((value >> (8 * k)) & 0xff) as u8;
    }
}

/// A one-segment executable whose text bytes are `payload`.
fn user_program(vaddr: u64, payload: &[u8]) -> Vec<u8> {
    let data_base = 64 + 56;
    let mut bytes = vec![0u8; data_base + payload.len()];
    bytes[0] = 0x7f;
    bytes[1] = 0x45;
    bytes[2] = 0x4c;
    bytes[3] = 0x46;
    bytes[4] = 2;
    bytes[5] = 1;
    put_le(&mut bytes, 24, vaddr, 8);
    put_le(&mut bytes, 32, 64, 8);
    put_le(&mut bytes, 54, 56, 2);
    put_le(&mut bytes, 56, 1, 2);
    put_le(&mut bytes, 64, 1, 4); // PT_LOAD
    put_le(&mut bytes, 64 + 4, (PF_R | PF_X) as u64, 4);
    put_le(&mut bytes, 64 + 8, data_base as u64, 8);
    put_le(&mut bytes, 64 + 16, vaddr, 8);
    put_le(&mut bytes, 64 + 32, payload.len() as u64, 8);
    put_le(&mut bytes, 64 + 40, payload.len() as u64, 8);
    put_le(&mut bytes, 64 + 48, 0x1000, 8);
    bytes[data_base..].copy_from_slice(payload);
    bytes
}

struct Machine {
    space: AddressSpace,
    device: TextDevice,
    td: zulu_os::syscall::ThreadData,
    entry: u64,
    stack_top: u64,
}

/// Boot: heap, user stack, ELF load, thread record.
fn boot(payload: &[u8]) -> Machine {
    let regions = vec![MemoryRegion {
        start: 0x10_0000,
        end: 0x20_0000,
        kind: MemoryRegionKind::Usable,
    }];
    let mut space = AddressSpace::new();
    let mut alloc = BootInfoFrameAllocator::init(regions);
    let mut heap = BumpAllocator::new();
    init_kernel_heap(&mut space, &mut alloc, &mut heap).unwrap();
    let stack_top = setup_user_stack(&mut space, &mut alloc).unwrap();
    let elf = load(&user_program(0x400000, payload), &mut space, &mut alloc).unwrap();
    let td = init_thread_data(0xffff_8000_0010_0000);
    Machine { space, device: TextDevice::new(), td, entry: elf.entry_point, stack_top }
}

#[test]
fn write_then_exit_prints_and_idles() {
    // The program's text holds "Test print"; it writes those ten bytes to
    // descriptor 0 and exits with code 0.
    let mut m = boot(b"Test print");
    assert_eq!(m.entry, LOAD_TEXT_SECTION_AT);
    let r = syscall_round(
        &mut m.td,
        &m.space,
        &mut m.device,
        m.entry,
        m.stack_top,
        0x202,
        2,
        0,
        LOAD_TEXT_SECTION_AT,
        10,
        0,
        0,
    );
    assert_eq!(
        r,
        TrampolineResult::Sysret { rax: 10, rip: m.entry, rsp: m.stack_top, rflags: 0x202 }
    );
    let r = syscall_round(
        &mut m.td,
        &m.space,
        &mut m.device,
        m.entry,
        m.stack_top,
        0x202,
        3,
        0,
        0,
        0,
        0,
        0,
    );
    assert_eq!(r, TrampolineResult::Halted { code: 0 });
    assert_eq!(m.device.bytes, b"Test print".to_vec());
}

#[test]
fn unknown_syscall_returns_minus_one_and_continues() {
    let mut m = boot(b"\x90\x90");
    let r = syscall_round(
        &mut m.td,
        &m.space,
        &mut m.device,
        m.entry,
        m.stack_top,
        0x202,
        99,
        0,
        0,
        0,
        0,
        0,
    );
    match r {
        TrampolineResult::Sysret { rax, rflags, .. } => {
            assert_eq!(rax, u64::MAX);
            assert_eq!(rflags, 0x202);
        }
        other => panic!("expected a return to user code, got {:?}", other),
    }
    // The program goes on and can still exit.
    let r = syscall_round(
        &mut m.td,
        &m.space,
        &mut m.device,
        m.entry,
        m.stack_top,
        0x202,
        3,
        0,
        0,
        0,
        0,
        0,
    );
    assert_eq!(r, TrampolineResult::Halted { code: 0 });
}

#[test]
fn write_from_null_pointer_returns_minus_two() {
    let mut m = boot(b"\x90\x90");
    let r = syscall_round(
        &mut m.td,
        &m.space,
        &mut m.device,
        m.entry,
        m.stack_top,
        0x202,
        2,
        0,
        0,
        1,
        0,
        0,
    );
    match r {
        TrampolineResult::Sysret { rax, .. } => assert_eq!(rax, u64::MAX - 1),
        other => panic!("expected a return to user code, got {:?}", other),
    }
    assert!(m.device.bytes.is_empty());
}

#[test]
fn user_writes_land_on_the_stack_pages() {
    // The freshly mapped user stack accepts writes through the model, as
    // ring-3 pushes will.
    let mut m = boot(b"\x90");
    let data: Vec<u8> = vec![0xaa, 0xbb];
    m.space.write_bytes(m.stack_top - 2, &data);
    assert_eq!(m.space.read_bytes(m.stack_top - 2, 2), data);
}
