//! Accumulating interval timers that fire and restart from zero.

use vstd::prelude::*;

verus! {

/// Elapsed milliseconds since the last firing, and the firing interval.
#[derive(Clone, Copy, Debug, PartialEq, Eq, Structural)]
pub struct IntervalTimer {
    pub interval: u64,
    pub current: u64,
}

impl IntervalTimer {
    pub fn new(interval: u64) -> (r: IntervalTimer)
        ensures
            r.interval == interval,
            r.current == 0,
    {
        IntervalTimer { interval, current: 0 }
    }

    /// Adds `delta` milliseconds; when the total reaches the interval the
    /// timer fires and restarts from zero, dropping any overshoot.
    pub fn advance(&mut self, delta: u64) -> (fired: bool)
        ensures
            fired == (old(self).current + delta >= old(self).interval),
            final(self).interval == old(self).interval,
            final(self).current == if fired { 0 } else { old(self).current + delta },
    {
        let total = self.current.saturating_add(delta);
        if total >= self.interval {
            self.current = 0;
            true
        } else {
            self.current = total;
            false
        }
    }
}

} // verus!
