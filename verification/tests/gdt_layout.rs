use zulu_os::gdt::{
    gdt_init, gdt_selectors, star_msr_value, syscall_flag_mask, user_mode_flags, GdtError,
    StarError, DOUBLE_FAULT_STACK_INDEX, IST_STACK_SIZE, PAGE_FAULT_STACK_INDEX,
};

#[test]
fn selectors_follow_the_fixed_order() {
    let s = gdt_selectors();
    assert_eq!(s.kernel_code_selector, 0x08);
    assert_eq!(s.kernel_data_selector, 0x10);
    assert_eq!(s.user_data_selector, 0x1b);
    assert_eq!(s.user_code_selector, 0x23);
    assert_eq!(s.tss_selector, 0x28);
    assert_eq!(s.kernel_data_selector2, 0x38);
}

#[test]
fn star_value_for_the_fixed_layout() {
    let s = gdt_selectors();
    let star = star_msr_value(
        s.user_code_selector,
        s.user_data_selector,
        s.kernel_code_selector,
        s.kernel_data_selector,
    )
    .unwrap();
    // User base 0x13 in bits 63..48, kernel base 0x08 in bits 47..32.
    assert_eq!(star, (0x13u64 << 48) | (0x08u64 << 32));
}

#[test]
fn star_rejects_swapped_user_selectors() {
    // Putting user-code before user-data breaks the sysret offsets; this
    // is why the GDT order matters.
    let s = gdt_selectors();
    assert_eq!(
        star_msr_value(
            s.user_data_selector,
            s.user_code_selector,
            s.kernel_code_selector,
            s.kernel_data_selector,
        ),
        Err(StarError::InvalidUserSelectors)
    );
}

#[test]
fn star_rejects_non_adjacent_kernel_selectors() {
    assert_eq!(star_msr_value(0x23, 0x1b, 0x08, 0x18), Err(StarError::InvalidKernelSelectors));
}

#[test]
fn gdt_init_requires_fsgsbase() {
    assert_eq!(gdt_init(false), Err(GdtError::FsGsBaseUnsupported));
    let config = gdt_init(true).unwrap();
    assert_eq!(config.sfmask, 0x200);
    assert!(config.efer_syscall_extensions);
    assert_eq!(config.selectors, gdt_selectors());
    assert_eq!(config.star, (0x13u64 << 48) | (0x08u64 << 32));
}

#[test]
fn syscall_mask_clears_interrupt_flag() {
    // Bit 9 is RFLAGS.IF: set in the mask means cleared on entry.
    assert_eq!(syscall_flag_mask() & (1 << 9), 1 << 9);
}

#[test]
fn user_mode_flags_enable_interrupts() {
    let f = user_mode_flags();
    assert_eq!(f, 0x202);
    assert_eq!(f & (1 << 9), 1 << 9); // interrupts on in ring 3
    assert_eq!(f & (1 << 1), 1 << 1); // reserved always-one bit
}

#[test]
fn ist_layout_constants() {
    assert_eq!(DOUBLE_FAULT_STACK_INDEX, 0);
    assert_eq!(PAGE_FAULT_STACK_INDEX, 1);
    assert_eq!(IST_STACK_SIZE, 20 * 1024);
}
