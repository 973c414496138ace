//! Supervisor timer.
use vstd::prelude::*;

verus! {

/// Ticks of the time base per second.
pub const TIMEBASE_HZ: u64 = 10_000_000;

/// Length of a scheduling tick.
pub const TICK_MS: u64 = 10;

/// Time-base ticks in a scheduling tick.
pub const TICKS_PER_TICK: u64 = 100_000;

/// Supervisor timer interrupts in sie.
pub const SIE_STIE: u64 = 0x20;

/// The compare value that fires `after` ticks from `now`.
pub fn arm(now: u64, after: u64) -> (r: u64)
    requires
        now + after <= u64::MAX,
    ensures
        r == now + after,
{
    now + after
}

/// The bits to set in sie to enable the timer interrupt.
pub fn enable() -> (r: u64)
    ensures
        r == SIE_STIE,
{
    SIE_STIE
}

/// Arm for one scheduling tick from `now` and enable the interrupt: the compare
/// value, and the bits to set in sie.
pub fn init(now: u64) -> (r: (u64, u64))
    requires
        now + TICKS_PER_TICK <= u64::MAX,
    ensures
        r.0 == now + TICKS_PER_TICK,
        r.1 == SIE_STIE,
{
    (arm(now, TICKS_PER_TICK), enable())
}

} // verus!
