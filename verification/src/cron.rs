//! Periodic fire-time generation for housekeeper actions.

use vstd::prelude::*;

verus! {

/// All tick values handled by the scheduler stay below this bound, so that
/// `now + delay` never overflows a `u64`.
pub const MAX_TICK: u64 = 0x2000_0000_0000_0000;

/// A periodic schedule: fires at every multiple of `period` ticks.
#[derive(Clone, Copy)]
pub struct SimpleCron {
    pub period: u64,
}

impl SimpleCron {
    pub open spec fn wf(self) -> bool {
        1 <= self.period < MAX_TICK
    }

    /// The delay from `now` until the next multiple of the period.
    pub open spec fn spec_time_to_next(self, now: u64) -> u64 {
        (self.period - now % self.period) as u64
    }

    pub fn new(period: u64) -> (r: SimpleCron)
        requires
            1 <= period < MAX_TICK,
        ensures
            r.wf(),
            r.period == period,
    {
        SimpleCron { period }
    }

    /// Delay until the next fire time, always at least one tick so a
    /// rescheduled action never falls due in the same instant again.
    pub fn time_to_next(&self, now: u64) -> (r: u64)
        requires
            self.wf(),
        ensures
            r == self.spec_time_to_next(now),
            1 <= r <= self.period,
    {
        self.period - now % self.period
    }
}

} // verus!
