use kidneyos::interrupts::idt::{idt_entries, kernel_gate_for, GateDescriptor, IdtHandlers, IDT_LEN};

#[test]
fn gate_offset_roundtrip_keeps_other_fields() {
    let g = GateDescriptor::zero()
        .with_segment_selector(0x8)
        .with_gate_type(0xe)
        .with_descriptor_privilege_level(3)
        .with_present(true)
        .with_offset(0xdead_beef);
    assert_eq!(g.offset(), 0xdead_beef);
    assert_eq!(g.offset_low(), 0xbeef);
    assert_eq!(g.offset_high(), 0xdead);
    assert_eq!(g.segment_selector(), 0x8);
    assert_eq!(g.gate_type(), 0xe);
    assert_eq!(g.descriptor_privilege_level(), 3);
    assert!(g.present());
    assert_eq!(g.bits, 0xdead_ee00_0008_beef);
    let h = g.with_offset(0x1234_5678);
    assert_eq!(h.offset(), 0x1234_5678);
    assert_eq!(h.segment_selector(), 0x8);
    assert!(!h.with_present(false).present());
}

#[test]
fn idt_entries_point_vectors_at_their_handlers() {
    let h = IdtHandlers {
        unhandled: 0x1000,
        page_fault: 0x2000,
        timer: 0x3000,
        keyboard: 0x4000,
        ide_primary: 0x5000,
        ide_secondary: 0x6000,
        syscall: 0x7000,
    };
    let idt = idt_entries(&h);
    assert_eq!(idt.len(), IDT_LEN);
    assert_eq!(idt[0].offset(), 0x1000);
    assert_eq!(idt[0xe].offset(), 0x2000);
    assert_eq!(idt[0x20].offset(), 0x3000);
    assert_eq!(idt[0x21].offset(), 0x4000);
    assert_eq!(idt[0x2e].offset(), 0x5000);
    assert_eq!(idt[0x2f].offset(), 0x6000);
    assert_eq!(idt[0x80].offset(), 0x7000);
    assert_eq!(idt[0xff].offset(), 0x1000);
    assert_eq!(idt[0x80], kernel_gate_for(0x7000));
}
