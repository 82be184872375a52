//! How the ATA driver waits: by counting processor cycles, or by asking the
//! scheduler to wake it later.
use vstd::prelude::*;

use crate::interrupts::timer::Duration;

verus! {

/// The processor's clock frequency, in GHz: cycles per nanosecond.
pub const CPU_FREQUENCY_GHZ: u64 = 2;

/// How to wait.
#[derive(Clone, Copy, Debug, PartialEq, Eq, Structural)]
pub enum SleepPlan {
    /// Spin until the time-stamp counter has advanced by this many cycles
    BusyWait { cycles: u64 },
    /// Let the scheduler run other threads for this long
    Scheduler(Duration),
}

/// The cycles to spin for `t` nanoseconds.
fn nsleep_block(t: u64) -> (r: u64)
    requires
        t * CPU_FREQUENCY_GHZ <= u64::MAX,
    ensures
        r == t * CPU_FREQUENCY_GHZ,
{
    t * CPU_FREQUENCY_GHZ
}

/// The cycles to spin for `t` microseconds.
fn usleep_block(t: u64) -> (r: u64)
    requires
        t * 1000 * CPU_FREQUENCY_GHZ <= u64::MAX,
    ensures
        r == t * 1000 * CPU_FREQUENCY_GHZ,
{
    nsleep_block(t * 1000)
}

/// The cycles to spin for `t` milliseconds.
fn msleep_block(t: u64) -> (r: u64)
    requires
        t * 1_000_000 * CPU_FREQUENCY_GHZ <= u64::MAX,
    ensures
        r == t * 1_000_000 * CPU_FREQUENCY_GHZ,
{
    usleep_block(t * 1000)
}

/// How to sleep for `t` milliseconds: by spinning if `block`, else through
/// the scheduler. A spin must count its cycles in 64 bits.
pub fn msleep(t: u64, block: bool) -> (r: SleepPlan)
    requires
        block ==> t * 1_000_000 * CPU_FREQUENCY_GHZ <= u64::MAX,
    ensures
        block ==> r == (SleepPlan::BusyWait { cycles: (t * 2_000_000) as u64 }),
        !block ==> (r matches SleepPlan::Scheduler(d) && d.wf() && d.total_nanos() == t * 1_000_000),
{
    if block {
        SleepPlan::BusyWait { cycles: msleep_block(t) }
    } else {
        SleepPlan::Scheduler(Duration::from_millis(t))
    }
}

/// How to sleep for `t` microseconds: by spinning if `block`, else through
/// the scheduler. A spin must count its cycles in 64 bits.
pub fn usleep(t: u64, block: bool) -> (r: SleepPlan)
    requires
        block ==> t * 1000 * CPU_FREQUENCY_GHZ <= u64::MAX,
    ensures
        block ==> r == (SleepPlan::BusyWait { cycles: (t * 2000) as u64 }),
        !block ==> (r matches SleepPlan::Scheduler(d) && d.wf() && d.total_nanos() == t * 1000),
{
    if block {
        SleepPlan::BusyWait { cycles: usleep_block(t) }
    } else {
        SleepPlan::Scheduler(Duration::from_micros(t))
    }
}

/// How to sleep for `t` nanoseconds: by spinning if `block`, else through
/// the scheduler. A spin must count its cycles in 64 bits.
pub fn nsleep(t: u64, block: bool) -> (r: SleepPlan)
    requires
        block ==> t * CPU_FREQUENCY_GHZ <= u64::MAX,
    ensures
        block ==> r == (SleepPlan::BusyWait { cycles: (t * 2) as u64 }),
        !block ==> (r matches SleepPlan::Scheduler(d) && d.wf() && d.total_nanos() == t),
{
    if block {
        SleepPlan::BusyWait { cycles: nsleep_block(t) }
    } else {
        SleepPlan::Scheduler(Duration::from_nanos(t))
    }
}

/// The 64-bit time-stamp counter from its two halves.
pub fn tsc_value(lo: u32, hi: u32) -> (r: u64)
    ensures
        r == hi * 0x1_0000_0000 + lo,
{
    lo as u64 + (hi as u64) * 0x1_0000_0000
}

/// Whether a spin that began at counter value `start` and now reads
/// `current` has waited `cycles` cycles. The counter must not have gone
/// backwards.
pub fn spin_done(start: u64, current: u64, cycles: u64) -> (r: bool)
    requires
        start <= current,
    ensures
        r == (current - start >= cycles),
{
    current - start >= cycles
}

} // verus!
