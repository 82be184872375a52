//! The decisions of interrupt handling: the interrupt level read from the
//! processor flags, the guard that withholds interrupts, the system clock and
//! the addresses of the handlers for unhandled interrupts, and the entries of
//! the interrupt descriptor table.
use vstd::prelude::*;

pub mod idt;
pub mod mutex_irq;
pub mod timer;
pub mod unhandled_handlers;

verus! {

/// Whether interrupts are enabled.
#[derive(Clone, Copy, Debug, PartialEq, Eq, Structural)]
pub enum IntrLevel {
    IntrOn,
    IntrOff,
}

/// The interrupt-enable flag's position in the processor's flags register.
pub const INTERRUPT_FLAG: u32 = 0x200;

/// The interrupt level that the flags register `flags` shows: on exactly when
/// its interrupt-enable bit (bit 9) is set.
pub fn intr_level_from_flags(flags: u32) -> (r: IntrLevel)
    ensures
        r == (if flags & INTERRUPT_FLAG != 0 { IntrLevel::IntrOn } else { IntrLevel::IntrOff }),
{
    if flags & INTERRUPT_FLAG != 0 {
        IntrLevel::IntrOn
    } else {
        IntrLevel::IntrOff
    }
}

} // verus!
