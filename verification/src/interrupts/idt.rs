//! Entries of the interrupt descriptor table, and the table the kernel loads.
use vstd::prelude::*;

verus! {

/// The bits `lo..lo + width` of `bits`, as a number.
pub open spec fn bit_field(bits: u64, lo: u64, width: u64) -> u64 {
    (bits >> lo) & (((1u64 << width) - 1) as u64)
}

/// An interrupt gate: one 64-bit entry of the interrupt descriptor table.
/// Bits 0-15 and 48-63 hold the handler's address, bits 16-31 the code
/// segment selector, bits 40-43 the descriptor type, bits 45-46 the privilege level
/// and bit 47 whether the descriptor is present.
#[derive(Clone, Copy, Debug, PartialEq, Eq, Structural)]
pub struct GateDescriptor {
    pub bits: u64,
}

impl GateDescriptor {
    /// The descriptor with every bit clear.
    pub fn zero() -> (r: GateDescriptor)
        ensures
            r.bits == 0,
    {
        GateDescriptor { bits: 0 }
    }

    /// The low half of the handler's address (bits 0-15).
    pub fn offset_low(&self) -> (r: u16)
        ensures
            r == bit_field(self.bits, 0, 16),
    {
        let b = self.bits;
        let r = (b & 0xffff) as u16;
        assert(r == bit_field(b, 0, 16)) by (bit_vector)
            requires
                r == (b & 0xffff) as u16,
        ;
        r
    }

    /// The high half of the handler's address (bits 48-63).
    pub fn offset_high(&self) -> (r: u16)
        ensures
            r == bit_field(self.bits, 48, 16),
    {
        let b = self.bits;
        let r = (b >> 48) as u16;
        assert(r == bit_field(b, 48, 16)) by (bit_vector)
            requires
                r == (b >> 48) as u16,
        ;
        r
    }

    /// The code segment selector (bits 16-31).
    pub fn segment_selector(&self) -> (r: u16)
        ensures
            r == bit_field(self.bits, 16, 16),
    {
        let b = self.bits;
        let r = ((b >> 16) & 0xffff) as u16;
        assert(r == bit_field(b, 16, 16)) by (bit_vector)
            requires
                r == ((b >> 16) & 0xffff) as u16,
        ;
        r
    }

    /// The descriptor type (bits 40-43).
    pub fn gate_type(&self) -> (r: u8)
        ensures
            r == bit_field(self.bits, 40, 4),
    {
        let b = self.bits;
        let r = ((b >> 40) & 0xf) as u8;
        assert(r == bit_field(b, 40, 4)) by (bit_vector)
            requires
                r == ((b >> 40) & 0xf) as u8,
        ;
        r
    }

    /// The privilege level needed to raise the interrupt (bits 45-46).
    pub fn descriptor_privilege_level(&self) -> (r: u8)
        ensures
            r == bit_field(self.bits, 45, 2),
    {
        let b = self.bits;
        let r = ((b >> 45) & 0x3) as u8;
        assert(r == bit_field(b, 45, 2)) by (bit_vector)
            requires
                r == ((b >> 45) & 0x3) as u8,
        ;
        r
    }

    /// Whether the descriptor is present (bit 47).
    pub fn present(&self) -> (r: bool)
        ensures
            r == (bit_field(self.bits, 47, 1) == 1),
    {
        let b = self.bits;
        let r = (b >> 47) & 1 == 1;
        assert(r == (bit_field(b, 47, 1) == 1)) by (bit_vector)
            requires
                r == ((b >> 47) & 1 == 1),
        ;
        r
    }

    /// The handler's address: the high half above the low half.
    pub fn offset(&self) -> (r: u32)
        ensures
            r == bit_field(self.bits, 48, 16) * 0x10000 + bit_field(self.bits, 0, 16),
    {
        let high = self.offset_high();
        let low = self.offset_low();
        let r = ((high as u32) << 16) | (low as u32);
        assert(r == high * 0x10000 + low) by (bit_vector)
            requires
                r == ((high as u32) << 16) | (low as u32),
        ;
        r
    }

    /// The descriptor with bits 0-15 set to `value`.
    pub fn with_offset_low(self, value: u16) -> (r: GateDescriptor)
        ensures
            r.bits == (self.bits & 0xffff_ffff_ffff_0000) | (value as u64),
    {
        GateDescriptor { bits: (self.bits & 0xffff_ffff_ffff_0000) | (value as u64) }
    }

    /// The descriptor with bits 48-63 set to `value`.
    pub fn with_offset_high(self, value: u16) -> (r: GateDescriptor)
        ensures
            r.bits == (self.bits & 0x0000_ffff_ffff_ffff) | ((value as u64) << 48),
    {
        GateDescriptor { bits: (self.bits & 0x0000_ffff_ffff_ffff) | ((value as u64) << 48) }
    }

    /// The descriptor with bits 16-31 set to `value`.
    pub fn with_segment_selector(self, value: u16) -> (r: GateDescriptor)
        ensures
            r.bits == (self.bits & 0xffff_ffff_0000_ffff) | ((value as u64) << 16),
    {
        GateDescriptor { bits: (self.bits & 0xffff_ffff_0000_ffff) | ((value as u64) << 16) }
    }

    /// The descriptor with bits 40-43 set to the low four bits of `value`.
    pub fn with_gate_type(self, value: u8) -> (r: GateDescriptor)
        ensures
            r.bits == (self.bits & 0xffff_f0ff_ffff_ffff) | (((value & 0xf) as u64) << 40),
    {
        GateDescriptor { bits: (self.bits & 0xffff_f0ff_ffff_ffff) | (((value & 0xf) as u64) << 40) }
    }

    /// The descriptor with bits 45-46 set to the low two bits of `value`.
    pub fn with_descriptor_privilege_level(self, value: u8) -> (r: GateDescriptor)
        ensures
            r.bits == (self.bits & 0xffff_9fff_ffff_ffff) | (((value & 0x3) as u64) << 45),
    {
        GateDescriptor { bits: (self.bits & 0xffff_9fff_ffff_ffff) | (((value & 0x3) as u64) << 45) }
    }

    /// The descriptor with bit 47 set to `value`.
    pub fn with_present(self, value: bool) -> (r: GateDescriptor)
        ensures
            r.bits == if value {
                self.bits | 0x0000_8000_0000_0000
            } else {
                self.bits & 0xffff_7fff_ffff_ffff
            },
    {
        if value {
            GateDescriptor { bits: self.bits | 0x0000_8000_0000_0000 }
        } else {
            GateDescriptor { bits: self.bits & 0xffff_7fff_ffff_ffff }
        }
    }

    /// The descriptor with the handler's address set to `value`: its low half in
    /// bits 0-15, its high half in bits 48-63.
    pub fn with_offset(self, value: u32) -> (r: GateDescriptor)
        ensures
            r.bits == (self.bits & 0x0000_ffff_ffff_0000) | ((value as u64 & 0xffff) | (((value as u64) >> 16) << 48)),
    {
        let r = self.with_offset_low(value as u16).with_offset_high((value >> 16) as u16);
        let b = self.bits;
        let rb = r.bits;
        assert(rb == (b & 0x0000_ffff_ffff_0000) | ((value as u64 & 0xffff) | (((value as u64) >> 16) << 48)))
            by (bit_vector)
            requires
                rb == (((b & 0xffff_ffff_ffff_0000) | ((value as u16) as u64)) & 0x0000_ffff_ffff_ffff) | ((((value >> 16)
                    as u16) as u64) << 48),
        ;
        r
    }
}

/// The bits of `g` with the handler's address set to `value` (what
/// `with_offset` gives).
pub open spec fn offset_set(g: u64, value: u32) -> u64 {
    (g & 0x0000_ffff_ffff_0000) | ((value as u64 & 0xffff) | (((value as u64) >> 16) << 48))
}

/// The bits of the descriptor that the kernel installs for a handler at `handler`:
/// a present 32-bit interrupt gate (type 0xE) in the kernel's code segment
/// (selector 0x8), that code of any privilege level may raise.
pub open spec fn kernel_gate(handler: u32) -> u64 {
    (((((offset_set(0, handler) & 0xffff_ffff_0000_ffff) | (0x8u64 << 16)) & 0xffff_f0ff_ffff_ffff) | (0xeu64 << 40))
        & 0xffff_9fff_ffff_ffff | (0x3u64 << 45)) | 0x0000_8000_0000_0000
}

/// The descriptor for a handler at `handler`.
pub fn kernel_gate_for(handler: u32) -> (r: GateDescriptor)
    ensures
        r.bits == kernel_gate(handler),
{
    let r = GateDescriptor::zero().with_offset(handler).with_segment_selector(0x8).with_gate_type(0xe).with_descriptor_privilege_level(
        3,
    ).with_present(true);
    let rb = r.bits;
    assert(rb == kernel_gate(handler)) by (bit_vector)
        requires
            rb == (((((((0u64 & 0x0000_ffff_ffff_0000) | ((handler as u64 & 0xffff) | (((handler as u64) >> 16) << 48)))
                & 0xffff_ffff_0000_ffff) | ((0x8u16 as u64) << 16)) & 0xffff_f0ff_ffff_ffff) | (((0xeu8 & 0xf) as u64) << 40))
                & 0xffff_9fff_ffff_ffff | (((3u8 & 0x3) as u64) << 45)) | 0x0000_8000_0000_0000,
    ;
    r
}

/// A kernel gate holds its handler's address, selector 0x8, type 0xE,
/// privilege level 3 and the present bit; setting another address on it
/// gives the kernel gate for that address.
pub proof fn lemma_kernel_gate(handler: u32, other: u32)
    ensures
        bit_field(kernel_gate(handler), 48, 16) * 0x10000 + bit_field(kernel_gate(handler), 0, 16) == handler,
        bit_field(kernel_gate(handler), 16, 16) == 0x8,
        bit_field(kernel_gate(handler), 40, 4) == 0xe,
        bit_field(kernel_gate(handler), 45, 2) == 3,
        bit_field(kernel_gate(handler), 47, 1) == 1,
        offset_set(kernel_gate(handler), other) == kernel_gate(other),
{
    let g = kernel_gate(handler);
    assert(((g >> 48) & (((1u64 << 16) - 1) as u64)) * 0x10000 + ((g >> 0) & (((1u64 << 16) - 1) as u64)) == handler
        && (g >> 16) & (((1u64 << 16) - 1) as u64) == 0x8 && (g >> 40) & (((1u64 << 4) - 1) as u64) == 0xe && (g >> 45)
        & (((1u64 << 2) - 1) as u64) == 3 && (g >> 47) & (((1u64 << 1) - 1) as u64) == 1) by (bit_vector)
        requires
            g == (((((((0u64 & 0x0000_ffff_ffff_0000) | ((handler as u64 & 0xffff) | (((handler as u64) >> 16) << 48)))
                & 0xffff_ffff_0000_ffff) | (0x8u64 << 16)) & 0xffff_f0ff_ffff_ffff) | (0xeu64 << 40)) & 0xffff_9fff_ffff_ffff
                | (0x3u64 << 45)) | 0x0000_8000_0000_0000,
    ;
    let o = kernel_gate(other);
    assert((g & 0x0000_ffff_ffff_0000) | ((other as u64 & 0xffff) | (((other as u64) >> 16) << 48)) == o) by (bit_vector)
        requires
            g == (((((((0u64 & 0x0000_ffff_ffff_0000) | ((handler as u64 & 0xffff) | (((handler as u64) >> 16) << 48)))
                & 0xffff_ffff_0000_ffff) | (0x8u64 << 16)) & 0xffff_f0ff_ffff_ffff) | (0xeu64 << 40)) & 0xffff_9fff_ffff_ffff
                | (0x3u64 << 45)) | 0x0000_8000_0000_0000,
            o == (((((((0u64 & 0x0000_ffff_ffff_0000) | ((other as u64 & 0xffff) | (((other as u64) >> 16) << 48)))
                & 0xffff_ffff_0000_ffff) | (0x8u64 << 16)) & 0xffff_f0ff_ffff_ffff) | (0xeu64 << 40)) & 0xffff_9fff_ffff_ffff
                | (0x3u64 << 45)) | 0x0000_8000_0000_0000,
    ;
}

/// The number of entries of the interrupt descriptor table.
pub const IDT_LEN: usize = 256;

/// The addresses of the kernel's interrupt handlers.
#[derive(Clone, Copy, Debug, PartialEq, Eq, Structural)]
pub struct IdtHandlers {
    pub unhandled: u32,
    pub page_fault: u32,
    pub timer: u32,
    pub keyboard: u32,
    pub ide_primary: u32,
    pub ide_secondary: u32,
    pub syscall: u32,
}

/// The handler of interrupt vector `v`: page faults (0xE), the timer (0x20,
/// the first line of the interrupt controller), the keyboard (0x21), the two
/// IDE channels (0x2E and 0x2F) and system calls (0x80) have their own; every
/// other vector goes to the handler of unhandled interrupts.
pub open spec fn handler_for(h: IdtHandlers, v: int) -> u32 {
    if v == 0xe {
        h.page_fault
    } else if v == 0x20 {
        h.timer
    } else if v == 0x21 {
        h.keyboard
    } else if v == 0x2e {
        h.ide_primary
    } else if v == 0x2f {
        h.ide_secondary
    } else if v == 0x80 {
        h.syscall
    } else {
        h.unhandled
    }
}

/// The interrupt descriptor table the kernel loads: every gate a kernel gate
/// for the unhandled-interrupt handler, then the vectors with handlers of
/// their own pointed at them.
pub fn idt_entries(h: &IdtHandlers) -> (r: Vec<GateDescriptor>)
    ensures
        r@.len() == IDT_LEN,
        forall|v: int| 0 <= v < IDT_LEN ==> #[trigger] r@[v].bits == kernel_gate(handler_for(*h, v)),
{
    let mut idt: Vec<GateDescriptor> = Vec::new();
    let gate = kernel_gate_for(h.unhandled);
    while idt.len() < IDT_LEN
        invariant
            idt@.len() <= IDT_LEN,
            gate.bits == kernel_gate(h.unhandled),
            forall|v: int| 0 <= v < idt@.len() ==> #[trigger] idt@[v].bits == kernel_gate(h.unhandled),
        decreases IDT_LEN - idt@.len(),
    {
        idt.push(gate);
    }
    proof {
        lemma_kernel_gate(h.unhandled, h.page_fault);
        lemma_kernel_gate(h.unhandled, h.timer);
        lemma_kernel_gate(h.unhandled, h.keyboard);
        lemma_kernel_gate(h.unhandled, h.ide_primary);
        lemma_kernel_gate(h.unhandled, h.ide_secondary);
        lemma_kernel_gate(h.unhandled, h.syscall);
    }
    let g = idt[0xe].with_offset(h.page_fault);
    idt.set(0xe, g);
    let g = idt[0x20].with_offset(h.timer);
    idt.set(0x20, g);
    let g = idt[0x21].with_offset(h.keyboard);
    idt.set(0x21, g);
    let g = idt[0x2e].with_offset(h.ide_primary);
    idt.set(0x2e, g);
    let g = idt[0x2f].with_offset(h.ide_secondary);
    idt.set(0x2f, g);
    let g = idt[0x80].with_offset(h.syscall);
    idt.set(0x80, g);
    idt
}

/// The handler's address that a gate holds is the one it was given, and
/// setting it changes no other field.
pub proof fn lemma_offset_roundtrip(g: GateDescriptor, value: u32)
    ensures
        ({
            let b = (g.bits & 0x0000_ffff_ffff_0000) | ((value as u64 & 0xffff) | (((value as u64) >> 16) << 48));
            &&& bit_field(b, 48, 16) * 0x10000 + bit_field(b, 0, 16) == value
            &&& bit_field(b, 16, 16) == bit_field(g.bits, 16, 16)
            &&& bit_field(b, 40, 4) == bit_field(g.bits, 40, 4)
            &&& bit_field(b, 45, 2) == bit_field(g.bits, 45, 2)
            &&& bit_field(b, 47, 1) == bit_field(g.bits, 47, 1)
        }),
{
    let gb = g.bits;
    let b = (gb & 0x0000_ffff_ffff_0000) | ((value as u64 & 0xffff) | (((value as u64) >> 16) << 48));
    assert(((b >> 48) & (((1u64 << 16) - 1) as u64)) * 0x10000 + ((b >> 0) & (((1u64 << 16) - 1) as u64)) == value) by (bit_vector)
        requires
            b == (gb & 0x0000_ffff_ffff_0000) | ((value as u64 & 0xffff) | (((value as u64) >> 16) << 48)),
    ;
    assert((b >> 16) & (((1u64 << 16) - 1) as u64) == (gb >> 16) & (((1u64 << 16) - 1) as u64)) by (bit_vector)
        requires
            b == (gb & 0x0000_ffff_ffff_0000) | ((value as u64 & 0xffff) | (((value as u64) >> 16) << 48)),
    ;
    assert((b >> 40) & (((1u64 << 4) - 1) as u64) == (gb >> 40) & (((1u64 << 4) - 1) as u64)) by (bit_vector)
        requires
            b == (gb & 0x0000_ffff_ffff_0000) | ((value as u64 & 0xffff) | (((value as u64) >> 16) << 48)),
    ;
    assert((b >> 45) & (((1u64 << 2) - 1) as u64) == (gb >> 45) & (((1u64 << 2) - 1) as u64)) by (bit_vector)
        requires
            b == (gb & 0x0000_ffff_ffff_0000) | ((value as u64 & 0xffff) | (((value as u64) >> 16) << 48)),
    ;
    assert((b >> 47) & (((1u64 << 1) - 1) as u64) == (gb >> 47) & (((1u64 << 1) - 1) as u64)) by (bit_vector)
        requires
            b == (gb & 0x0000_ffff_ffff_0000) | ((value as u64 & 0xffff) | (((value as u64) >> 16) << 48)),
    ;
}

} // verus!
