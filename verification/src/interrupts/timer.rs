//! The system clock, advanced by the timer interrupt.
use vstd::prelude::*;

verus! {

/// Nanoseconds in a second.
pub const NANOS_PER_SEC: u32 = 1_000_000_000;

/// The input frequency of the programmable interval timer, in Hz, times three.
pub const PIT_BASE_FREQUENCY_X3: u64 = 3579545;

/// The timer counts down from this value before it raises an interrupt.
pub const PIT_RELOAD: u64 = 0xffff;

/// A span of time: whole seconds and the nanoseconds beyond them.
#[derive(Clone, Copy, Debug, PartialEq, Eq, Structural)]
pub struct Duration {
    pub secs: u64,
    pub nanos: u32,
}

/// The largest number of nanoseconds a `Duration` cannot reach.
pub open spec fn duration_limit() -> int {
    (u64::MAX as int + 1) * 1_000_000_000
}

impl Duration {
    /// The nanoseconds part is below a second.
    pub open spec fn wf(&self) -> bool {
        self.nanos < NANOS_PER_SEC
    }

    /// The span in nanoseconds.
    pub open spec fn total_nanos(&self) -> int {
        self.secs * 1_000_000_000 + self.nanos
    }

    /// A span of `secs` seconds and `nanos` nanoseconds.
    pub fn new(secs: u64, nanos: u32) -> (r: Duration)
        requires
            nanos < NANOS_PER_SEC,
        ensures
            r.wf(),
            r.secs == secs,
            r.nanos == nanos,
    {
        Duration { secs, nanos }
    }

    /// A span of `micros` microseconds.
    pub fn from_micros(micros: u64) -> (r: Duration)
        ensures
            r.wf(),
            r.total_nanos() == micros * 1000,
    {
        let secs = micros / 1_000_000;
        let rest = micros % 1_000_000;
        let nanos: u32 = (rest * 1000) as u32;
        proof {
            assert(micros == secs * 1_000_000 + rest) by (nonlinear_arith)
                requires secs == micros / 1_000_000, rest == micros % 1_000_000;
        }
        Duration { secs, nanos }
    }

    /// A span of `millis` milliseconds.
    pub fn from_millis(millis: u64) -> (r: Duration)
        ensures
            r.wf(),
            r.total_nanos() == millis * 1_000_000,
    {
        let secs = millis / 1000;
        let rest = millis % 1000;
        let nanos: u32 = (rest * 1_000_000) as u32;
        proof {
            assert(millis == secs * 1000 + rest) by (nonlinear_arith)
                requires secs == millis / 1000, rest == millis % 1000;
        }
        Duration { secs, nanos }
    }

    /// A span of `nanos` nanoseconds.
    pub fn from_nanos(nanos: u64) -> (r: Duration)
        ensures
            r.wf(),
            r.total_nanos() == nanos,
    {
        let secs = nanos / 1_000_000_000;
        let rest = nanos % 1_000_000_000;
        proof {
            assert(nanos == secs * 1_000_000_000 + rest) by (nonlinear_arith)
                requires secs == nanos / 1_000_000_000, rest == nanos % 1_000_000_000;
        }
        Duration { secs, nanos: rest as u32 }
    }

    /// The sum of two spans, or `None` if it does not fit.
    pub fn checked_add(self, rhs: Duration) -> (r: Option<Duration>)
        requires
            self.wf(),
            rhs.wf(),
        ensures
            match r {
                Some(d) => d.wf() && d.total_nanos() == self.total_nanos() + rhs.total_nanos(),
                None => self.total_nanos() + rhs.total_nanos() >= duration_limit(),
            },
    {
        match self.secs.checked_add(rhs.secs) {
            None => None,
            Some(secs) => {
                let nanos = self.nanos + rhs.nanos;
                if nanos >= NANOS_PER_SEC {
                    match secs.checked_add(1) {
                        None => None,
                        Some(s) => Some(Duration { secs: s, nanos: nanos - NANOS_PER_SEC }),
                    }
                } else {
                    Some(Duration { secs, nanos })
                }
            },
        }
    }

    /// Whether this span is shorter than `other`.
    pub fn is_before(&self, other: &Duration) -> (r: bool)
        requires
            self.wf(),
            other.wf(),
        ensures
            r == (self.total_nanos() < other.total_nanos()),
    {
        self.secs < other.secs || (self.secs == other.secs && self.nanos < other.nanos)
    }
}

/// The time between two timer interrupts, in microseconds: the timer counts
/// `PIT_RELOAD` ticks of a `PIT_BASE_FREQUENCY_X3 / 3` Hz clock.
pub fn timer_interrupt_interval() -> (r: Duration)
    ensures
        r.wf(),
        r.total_nanos() == 54_924_000,
{
    Duration::from_micros(1_000_000u64 * PIT_RELOAD * 3 / PIT_BASE_FREQUENCY_X3)
}

/// Advance the system clock by one timer interval. The clock must not
/// overflow.
pub fn step_sys_clock(clock: &mut Duration)
    requires
        old(clock).wf(),
        old(clock).total_nanos() + 54_924_000 < duration_limit(),
    ensures
        final(clock).wf(),
        final(clock).total_nanos() == old(clock).total_nanos() + 54_924_000,
{
    let interval = timer_interrupt_interval();
    match clock.checked_add(interval) {
        Some(update) => {
            *clock = update;
        },
        None => {},
    }
}

/// The time at which a sleep of `time`, begun at `clock`, ends. The sum must
/// fit.
pub fn wakeup_time(clock: &Duration, time: Duration) -> (r: Duration)
    requires
        clock.wf(),
        time.wf(),
        clock.total_nanos() + time.total_nanos() < duration_limit(),
    ensures
        r.wf(),
        r.total_nanos() == clock.total_nanos() + time.total_nanos(),
{
    match clock.checked_add(time) {
        Some(end) => end,
        None => Duration { secs: 0, nanos: 0 },
    }
}

} // verus!
