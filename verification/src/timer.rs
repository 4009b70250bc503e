//! The periodic interval timer: programming constants and the monotonic
//! tick counter that uptime is derived from.

use vstd::prelude::*;

verus! {

/// Frequency the programmable interval timer is configured to, in ticks per second.
pub const TIMER_HZ: u64 = 100;

/// Input clock of the programmable interval timer, in Hz.
pub const PIT_BASE_HZ: u64 = 1193182;

/// Command byte for the timer: channel 0, lobyte/hibyte access, mode 3 (square wave).
pub const PIT_COMMAND: u8 = 0x36;

/// The divisor programmed into the timer so that it fires `TIMER_HZ` times a
/// second. It is written to the data port low byte first, then high byte.
pub fn pit_divisor() -> (d: u16)
    ensures
        d == PIT_BASE_HZ / TIMER_HZ,
{
    assert(PIT_BASE_HZ / TIMER_HZ == 11931);
    (PIT_BASE_HZ / TIMER_HZ) as u16
}

/// Advance the monotonic tick counter by one. Called once per timer interrupt.
pub fn tick(ticks: &mut u64)
    requires
        *old(ticks) < u64::MAX,
    ensures
        *final(ticks) == *old(ticks) + 1,
{
    *ticks = *ticks + 1;
}

/// Whole seconds of uptime derived from a tick count.
pub fn uptime_seconds(ticks: u64) -> (s: u64)
    ensures
        s == ticks / TIMER_HZ,
{
    ticks / TIMER_HZ
}

} // verus!
