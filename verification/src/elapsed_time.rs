use vstd::prelude::*;

verus! {

/// Emitted once for each full second of simulated time, carrying the new
/// second count.
#[derive(Clone, Copy, PartialEq, Eq, Structural, Debug)]
pub struct ElapsedSecondChangedEvent {
    pub seconds: usize,
}

/// Fixed one-second interval counter, driven by real elapsed time and so
/// independent of the tick rate; counts upward without bound or pause.
pub struct ElapsedClock {
    /// Milliseconds accumulated toward the next full second; always under
    /// 1000 between ticks.
    pub accum_millis: u64,
    /// Full seconds elapsed since the match context was created.
    pub seconds: usize,
}

impl ElapsedClock {
    pub fn new() -> (r: Self)
        ensures
            r.accum_millis == 0,
            r.seconds == 0,
    {
        ElapsedClock { accum_millis: 0, seconds: 0 }
    }

    /// Elapsed Clock step: fold one tick's real time into the accumulator
    /// and emit one changed notification per full second crossed, in order.
    pub fn advance(&mut self, dt_ms: u32) -> (events: Vec<ElapsedSecondChangedEvent>)
        requires
            old(self).accum_millis < 1000,
            old(self).seconds + (old(self).accum_millis + dt_ms) / 1000 <= usize::MAX,
        ensures
            final(self).accum_millis == (old(self).accum_millis + dt_ms) % 1000,
            final(self).seconds == old(self).seconds + (old(self).accum_millis + dt_ms) / 1000,
            events@.len() == (old(self).accum_millis + dt_ms) / 1000,
            forall|k: int|
                0 <= k < events@.len() ==> (#[trigger] events@[k]).seconds == old(self).seconds + k
                    + 1,
    {
        let mut events: Vec<ElapsedSecondChangedEvent> = Vec::new();
        let ghost total: int = old(self).accum_millis + dt_ms;
        let mut rem: u64 = self.accum_millis + (dt_ms as u64);
        while rem >= 1000
            invariant
                old(self).seconds + total / 1000 <= usize::MAX,
                self.seconds == old(self).seconds + events@.len(),
                rem == total - 1000 * events@.len(),
                rem >= 0,
                forall|k: int|
                    0 <= k < events@.len() ==> (#[trigger] events@[k]).seconds == old(self).seconds
                        + k + 1,
            decreases rem,
        {
            proof {
                assert(events@.len() + 1 <= total / 1000) by (nonlinear_arith)
                    requires
                        rem == total - 1000 * events@.len(),
                        rem >= 1000,
                ;
            }
            rem = rem - 1000;
            self.seconds = self.seconds + 1;
            events.push(ElapsedSecondChangedEvent { seconds: self.seconds });
        }
        self.accum_millis = rem;
        proof {
            assert(events@.len() == total / 1000 && rem == total % 1000) by (nonlinear_arith)
                requires
                    rem == total - 1000 * events@.len(),
                    0 <= rem < 1000,
                    events@.len() >= 0,
            ;
        }
        events
    }
}

} // verus!
