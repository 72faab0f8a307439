//! The machine timer: recognising its interrupt and counting ticks.
use vstd::prelude::*;

verus! {

/// Timer cycles between two ticks.
pub const INTERVAL: u64 = 10_000_000;

/// Whether a trap cause names the machine timer interrupt: the top bit
/// marks an interrupt and the low byte holds its code, 7.
pub open spec fn is_timer_spec(mcause: u64) -> bool {
    mcause >> 63u64 == 1 && mcause & 0xff == 7
}

/// Whether a trap cause names the machine timer interrupt.
pub fn is_timer_interrupt(mcause: u64) -> (r: bool)
    ensures
        r == is_timer_spec(mcause),
{
    let top = mcause >> 63u64;
    assert(top & 1 == top) by (bit_vector)
        requires
            top == mcause >> 63u64,
    ;
    top & 1 == 1 && mcause & 0xff == 7
}

/// The time at which the next tick is due, `INTERVAL` after `now`; the
/// counter wraps around.
pub fn next_deadline(now: u64) -> (r: u64)
    ensures
        r == (now + INTERVAL) % 0x1_0000_0000_0000_0000,
{
    now.wrapping_add(INTERVAL)
}

/// The number of timer ticks since start-up.
pub struct Ticks {
    pub count: u64,
}

impl Ticks {
    /// No tick yet.
    pub fn new() -> (t: Self)
        ensures
            t.count == 0,
    {
        Ticks { count: 0 }
    }

    /// Take one trap; a timer interrupt counts one tick (wrapping around).
    /// Returns whether the trap was the timer's, so that the caller re-arms
    /// it.
    pub fn on_trap(&mut self, mcause: u64) -> (timer: bool)
        ensures
            timer == is_timer_spec(mcause),
            timer ==> final(self).count == (old(self).count + 1) % 0x1_0000_0000_0000_0000,
            !timer ==> final(self).count == old(self).count,
    {
        if is_timer_interrupt(mcause) {
            self.count = self.count.wrapping_add(1);
            true
        } else {
            false
        }
    }

    /// The number of ticks so far.
    pub fn ticks(&self) -> (r: u64)
        ensures
            r == self.count,
    {
        self.count
    }
}

} // verus!
