use vstd::prelude::*;

verus! {

/// A frequency-based scheduler gate. The reference instant advances by a
/// fixed delay per tick, never to "now", so the cadence is drift-corrected:
/// timing error does not accumulate. Time is handed in by the caller as
/// milliseconds counted from the moment the clock was created; the caller
/// also performs the wait that a synchronized tick asks for.
pub struct Clock {
    last_tick: u64,
    delay: u64,
}

impl Clock {
    /// The reference instant, in caller milliseconds.
    pub closed spec fn spec_last_tick(&self) -> u64 {
        self.last_tick
    }

    /// The fixed inter-tick delay, in milliseconds.
    pub closed spec fn spec_delay(&self) -> u64 {
        self.delay
    }

    /// A clock gating at the given frequency: the delay is the whole number
    /// of milliseconds per cycle, and the reference starts at zero.
    pub fn new(frequency: u64) -> (r: Self)
        requires
            frequency >= 1,
        ensures
            r.spec_last_tick() == 0,
            r.spec_delay() == 1000u64 / frequency,
    {
        Self { last_tick: 0, delay: 1000 / frequency }
    }

    /// One gate decision at time `now`. If a full delay has elapsed since
    /// the reference, the reference advances by exactly one delay and the
    /// tick is due with no wait. If not and `sync` is requested, the
    /// reference advances all the same and the caller owes the remaining
    /// wait before acting. Otherwise nothing changes and the tick is not
    /// due.
    pub fn tick(&mut self, now: u64, sync: bool) -> (r: (bool, u64))
        requires
            old(self).spec_last_tick() + old(self).spec_delay() <= u64::MAX,
        ensures
            final(self).spec_delay() == old(self).spec_delay(),
            ({
                let elapsed: int = if now >= old(self).spec_last_tick() {
                    now - old(self).spec_last_tick()
                } else {
                    0
                };
                if elapsed >= old(self).spec_delay() {
                    &&& final(self).spec_last_tick() == old(self).spec_last_tick() + old(
                        self,
                    ).spec_delay()
                    &&& r == (true, 0u64)
                } else if sync {
                    &&& final(self).spec_last_tick() == old(self).spec_last_tick() + old(
                        self,
                    ).spec_delay()
                    &&& r == (true, (old(self).spec_delay() - elapsed) as u64)
                } else {
                    &&& final(self).spec_last_tick() == old(self).spec_last_tick()
                    &&& r == (false, 0u64)
                }
            }),
    {
        let elapsed = if now >= self.last_tick {
            now - self.last_tick
        } else {
            0
        };
        if elapsed >= self.delay {
            self.last_tick = self.last_tick + self.delay;
            (true, 0)
        } else {
            if sync {
                let wait = self.delay - elapsed;
                self.last_tick = self.last_tick + self.delay;
                (true, wait)
            } else {
                (false, 0)
            }
        }
    }
}

} // verus!
