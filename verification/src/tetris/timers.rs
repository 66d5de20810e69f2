//! The two countdowns of the simulation. Time is counted in whole
//! nanoseconds; an elapsed time that would pass `u64::MAX` stops there.

use vstd::prelude::*;

verus! {

/// `elapsed` advanced by `delta`, held at `u64::MAX`.
pub open spec fn advanced(elapsed: u64, delta: u64) -> u64 {
    if elapsed + delta > u64::MAX {
        u64::MAX
    } else {
        (elapsed + delta) as u64
    }
}

/// `delta` scaled by `factor`, held at `u64::MAX`.
pub open spec fn scaled(delta: u64, factor: u32) -> u64 {
    if delta * factor > u64::MAX {
        u64::MAX
    } else {
        (delta * factor) as u64
    }
}

/// Scales `delta` by `factor`, stopping at `u64::MAX`.
pub fn scale(delta: u64, factor: u32) -> (r: u64)
    ensures
        r == scaled(delta, factor),
{
    match delta.checked_mul(factor as u64) {
        Some(r) => r,
        None => u64::MAX,
    }
}

/// The repeating countdown that drives descent. It fires on each tick on
/// which the elapsed time reaches the period, and then keeps what is left
/// over of the elapsed time.
#[derive(Debug, Clone, Copy, PartialEq, Eq, Structural)]
pub struct GravityTimer {
    /// The time counted toward the next firing.
    pub elapsed: u64,
    /// The time between two firings.
    pub period: u64,
}

impl GravityTimer {
    /// Whether a tick of `delta` fires the timer.
    pub open spec fn fires(self, delta: u64) -> bool {
        advanced(self.elapsed, delta) >= self.period
    }

    /// The timer after a tick of `delta`.
    pub open spec fn spec_tick(self, delta: u64) -> GravityTimer {
        GravityTimer {
            elapsed: if !self.fires(delta) {
                advanced(self.elapsed, delta)
            } else if self.period == 0 {
                0
            } else {
                (advanced(self.elapsed, delta) % self.period) as u64
            },
            period: self.period,
        }
    }

    /// A timer of period `period`, with nothing elapsed.
    pub fn new(period: u64) -> (r: GravityTimer)
        ensures
            r == (GravityTimer { elapsed: 0, period }),
    {
        GravityTimer { elapsed: 0, period }
    }

    /// Advances the timer by `delta`. Returns whether it fired.
    pub fn tick(&mut self, delta: u64) -> (fired: bool)
        ensures
            fired == old(self).fires(delta),
            *final(self) == old(self).spec_tick(delta),
    {
        let total: u64 = self.elapsed.saturating_add(delta);
        if total >= self.period {
            self.elapsed = if self.period == 0 {
                0
            } else {
                total % self.period
            };
            true
        } else {
            self.elapsed = total;
            false
        }
    }
}

/// The one-shot countdown before a piece that rests is locked. It is either
/// stopped or counting; a counting timer stops when its elapsed time reaches
/// the duration, and a stopped timer stays stopped until it is reset.
#[derive(Debug, Clone, Copy, PartialEq, Eq, Structural)]
pub struct LockdownTimer {
    /// The time counted since the timer was last reset.
    pub elapsed: u64,
    /// The time after which a counting timer stops.
    pub duration: u64,
    /// Whether the timer is stopped.
    pub finished: bool,
}

impl LockdownTimer {
    /// Whether a tick of `delta` stops the timer: it is counting and the
    /// elapsed time reaches the duration.
    pub open spec fn expires(self, delta: u64) -> bool {
        !self.finished && advanced(self.elapsed, delta) >= self.duration
    }

    /// The timer after a tick of `delta`: a stopped timer as it was, a
    /// counting one advanced, and stopped where it reached its duration.
    pub open spec fn spec_tick(self, delta: u64) -> LockdownTimer {
        if self.finished {
            self
        } else if self.expires(delta) {
            self.spec_cancel()
        } else {
            LockdownTimer {
                elapsed: advanced(self.elapsed, delta),
                duration: self.duration,
                finished: false,
            }
        }
    }

    /// The timer counting from zero.
    pub open spec fn spec_reset(self) -> LockdownTimer {
        LockdownTimer { elapsed: 0, duration: self.duration, finished: false }
    }

    /// The timer stopped.
    pub open spec fn spec_cancel(self) -> LockdownTimer {
        LockdownTimer { elapsed: self.duration, duration: self.duration, finished: true }
    }

    /// A stopped timer of duration `duration`.
    pub fn new(duration: u64) -> (r: LockdownTimer)
        ensures
            r == (LockdownTimer { elapsed: duration, duration, finished: true }),
    {
        LockdownTimer { elapsed: duration, duration, finished: true }
    }

    /// Whether the timer is stopped.
    pub fn finished(&self) -> (r: bool)
        ensures
            r == self.finished,
    {
        self.finished
    }

    /// Advances a counting timer by `delta`; a stopped timer is left as it
    /// is. Returns whether this tick stopped the timer.
    pub fn tick(&mut self, delta: u64) -> (just_finished: bool)
        ensures
            just_finished == old(self).expires(delta),
            *final(self) == old(self).spec_tick(delta),
    {
        if self.finished {
            return false;
        }
        let total: u64 = self.elapsed.saturating_add(delta);
        if total >= self.duration {
            self.elapsed = self.duration;
            self.finished = true;
            true
        } else {
            self.elapsed = total;
            false
        }
    }

    /// Starts the countdown from zero.
    pub fn reset(&mut self)
        ensures
            *final(self) == old(self).spec_reset(),
    {
        self.elapsed = 0;
        self.finished = false;
    }

    /// Stops the countdown.
    pub fn cancel(&mut self)
        ensures
            *final(self) == old(self).spec_cancel(),
    {
        self.elapsed = self.duration;
        self.finished = true;
    }
}

} // verus!
