use learn_os::registers::{four_level_paging_enabled, CR0, CR3, CR4, IA32_EFER, IA32_EFER_ADDRESS};

#[test]
fn cr0_flags_are_bits_0_and_31() {
    assert!(CR0::from_value(0x8000_0000).pg());
    assert!(!CR0::from_value(0x7fff_ffff).pg());
    assert!(CR0::from_value(0x1).pe());
    assert!(!CR0::from_value(0xffff_fffe).pe());
    assert_eq!(CR0::from_value(0x8000_0011).value(), 0x8000_0011);
}

#[test]
fn cr3_flags_are_bits_3_and_4() {
    let mut cr3 = CR3::from_value(0x1234_5000);
    assert!(!cr3.pwt() && !cr3.pcd());
    cr3.set_pwt(true);
    assert_eq!(cr3.value(), 0x1234_5008);
    cr3.set_pcd(true);
    assert_eq!(cr3.value(), 0x1234_5018);
    assert!(cr3.pwt() && cr3.pcd());
    cr3.set_pwt(false);
    assert_eq!(cr3.value(), 0x1234_5010);
    cr3.set_pcd(false);
    assert_eq!(cr3.value(), 0x1234_5000);
}

#[test]
fn cr3_address_is_all_but_the_low_12_bits() {
    let mut cr3 = CR3::from_value(0x1234_5abc);
    assert_eq!(cr3.address(), 0x1234_5000);
    cr3.set_address(0x9_8765_4000);
    assert_eq!(cr3.value(), 0x9_8765_4abc);
    assert_eq!(cr3.address(), 0x9_8765_4000);
}

#[test]
fn cr4_flags_are_bits_5_and_12() {
    assert!(CR4::from_value(0x20).pae());
    assert!(!CR4::from_value(!0x20).pae());
    assert!(CR4::from_value(0x1000).la57());
    assert!(!CR4::from_value(!0x1000).la57());
}

#[test]
fn efer_long_mode_is_bit_8() {
    assert!(IA32_EFER::from_value(0x100).lme());
    assert!(!IA32_EFER::from_value(!0x100).lme());
    assert_eq!(IA32_EFER::from_halves(0x1234_5678, 0x9abc_def0).value(), 0x1234_5678_9abc_def0);
    assert_eq!(IA32_EFER_ADDRESS, 0xc000_0080);
}

#[test]
fn four_level_paging_needs_all_four_conditions() {
    let cr0 = CR0::from_value(0x8000_0001);
    let cr4 = CR4::from_value(0x20);
    let efer = IA32_EFER::from_value(0x100);
    assert!(four_level_paging_enabled(&cr0, &cr4, &efer));
    assert!(!four_level_paging_enabled(&CR0::from_value(1), &cr4, &efer));
    assert!(!four_level_paging_enabled(&cr0, &CR4::from_value(0), &efer));
    assert!(!four_level_paging_enabled(&cr0, &cr4, &IA32_EFER::from_value(0)));
    assert!(!four_level_paging_enabled(&cr0, &CR4::from_value(0x1020), &efer));
}
