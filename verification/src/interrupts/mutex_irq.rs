//! The guard that withholds interrupts while a lock is held.
use vstd::prelude::*;

use crate::interrupts::IntrLevel;

verus! {

/// A guard for withholding interrupts: it remembers whether interrupts were
/// enabled when it was taken.
#[derive(Clone, Copy, Debug, PartialEq, Eq, Structural)]
pub struct InterruptsGuard(pub bool);

/// The guard taken at level `current`.
pub open spec fn guard_at(current: IntrLevel) -> InterruptsGuard {
    InterruptsGuard(current == IntrLevel::IntrOn)
}

/// The level after the guard `g` is dropped: the level it was taken at.
pub open spec fn level_after_release(g: InterruptsGuard) -> IntrLevel {
    if g.0 {
        IntrLevel::IntrOn
    } else {
        IntrLevel::IntrOff
    }
}

/// Take a guard while the processor is at level `current` and switch to
/// `level`: the result is the guard, which remembers whether interrupts were
/// on, and the level to set now.
pub fn hold_interrupts(current: IntrLevel, level: IntrLevel) -> (r: (InterruptsGuard, IntrLevel))
    ensures
        r.0 == guard_at(current),
        r.1 == level,
{
    let enabled = match current {
        IntrLevel::IntrOn => true,
        IntrLevel::IntrOff => false,
    };
    (InterruptsGuard(enabled), level)
}

impl InterruptsGuard {
    /// Drop the guard: the interrupt level to set, which is the one from
    /// before the guard was taken, whatever the level is now.
    pub fn release(self) -> (r: IntrLevel)
        ensures
            r == level_after_release(self),
    {
        if self.0 {
            IntrLevel::IntrOn
        } else {
            IntrLevel::IntrOff
        }
    }
}

/// Switching to any level while holding a guard and then dropping the guard brings the
/// interrupt level back to what it was before the guard was taken.
pub proof fn lemma_hold_then_release(before: IntrLevel)
    ensures
        level_after_release(guard_at(before)) == before,
{
}

} // verus!
