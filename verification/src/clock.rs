//! The clock converts wall-clock deltas into simulated song time, honoring
//! the speed multiplier, the lead-in and pause state.

use vstd::prelude::*;

verus! {

/// Simulated time base. `raw_ms` counts milliseconds since playback start and
/// includes the lead-in; committed song time is `raw_ms` minus the lead-in,
/// clamped to zero. Pausing makes `advance` a no-op; resuming does not
/// reinject the skipped wall time.
#[derive(Clone, Copy, PartialEq, Eq, Structural, Debug)]
pub struct Clock {
    pub raw_ms: u64,
    pub paused: bool,
}

/// How far the clock moves for a wall delta: the delta scaled by the speed
/// multiplier (in thousandths, rounding down), clamped to what the play-along gate
/// allows.
pub open spec fn advance_amount(wall_delta: u64, speed_thousandths: u64, max_allowed: u64) -> int {
    let scaled = (wall_delta * speed_thousandths) / 1000;
    if scaled <= max_allowed {
        scaled
    } else {
        max_allowed as int
    }
}

/// Song time for a raw counter value: the counter minus the lead-in, clamped
/// to zero. Never negative, so the committed time cannot precede the start of
/// the content.
pub open spec fn song_time_of(raw_ms: u64, lead_in_ms: u64) -> u64 {
    if raw_ms >= lead_in_ms {
        (raw_ms - lead_in_ms) as u64
    } else {
        0u64
    }
}

/// The state a clock reaches when paused: only the mode flag changes, the
/// time base is kept.
pub open spec fn paused_clock(c: Clock) -> Clock {
    Clock { raw_ms: c.raw_ms, paused: true }
}

impl Clock {
    /// A fresh, running clock at raw time zero.
    pub fn new() -> (c: Clock)
        ensures
            c.raw_ms == 0u64,
            c.paused == false,
    {
        Clock { raw_ms: 0, paused: false }
    }

    /// Advance by a wall-clock delta. The delta is scaled by the speed
    /// multiplier (a speed of zero freezes time without erroring), clamped to
    /// `max_allowed`, and added to the counter, saturating at the machine
    /// limit. While paused this is a no-op.
    pub fn advance(&mut self, wall_delta: u64, speed_thousandths: u64, max_allowed: u64)
        ensures
            final(self).paused == old(self).paused,
            old(self).paused ==> final(self).raw_ms == old(self).raw_ms,
            !old(self).paused ==> final(self).raw_ms == if old(self).raw_ms + advance_amount(
                wall_delta,
                speed_thousandths,
                max_allowed,
            ) > u64::MAX {
                u64::MAX
            } else {
                (old(self).raw_ms + advance_amount(wall_delta, speed_thousandths, max_allowed)) as u64
            },
    {
        if self.paused {
            return ;
        }
        proof {
            assert(wall_delta * speed_thousandths <= u64::MAX * u64::MAX) by (nonlinear_arith)
                requires
                    wall_delta <= u64::MAX,
                    speed_thousandths <= u64::MAX,
            ;
        }
        let scaled: u128 = (wall_delta as u128) * (speed_thousandths as u128) / 1000;
        let adv: u64 = if scaled <= (max_allowed as u128) {
            scaled as u64
        } else {
            max_allowed
        };
        if self.raw_ms > u64::MAX - adv {
            self.raw_ms = u64::MAX;
        } else {
            self.raw_ms = self.raw_ms + adv;
        }
    }

    /// Pause the clock. Idempotent: pausing twice reaches the same state as
    /// pausing once.
    pub fn pause(&mut self)
        ensures
            *final(self) == paused_clock(*old(self)),
    {
        self.paused = true;
    }

    /// Resume the clock; wall time that passed while paused is not reinjected.
    pub fn resume(&mut self)
        ensures
            final(self).raw_ms == old(self).raw_ms,
            final(self).paused == false,
    {
        self.paused = false;
    }

    /// Committed song time under the given lead-in: the raw counter minus the
    /// lead-in, clamped to zero. Renderers use this so that notes approach
    /// during the visual lead-in before logic time zero.
    pub fn time_without_lead_in(&self, lead_in_ms: u64) -> (t: u64)
        ensures
            t == song_time_of(self.raw_ms, lead_in_ms),
    {
        if self.raw_ms >= lead_in_ms {
            self.raw_ms - lead_in_ms
        } else {
            0
        }
    }

    /// Jump the clock so that the committed song time becomes `target_ms`
    /// (saturating at the machine limit); the pause mode is kept.
    pub fn set_song_time(&mut self, target_ms: u64, lead_in_ms: u64)
        ensures
            final(self).paused == old(self).paused,
            final(self).raw_ms == if lead_in_ms + target_ms > u64::MAX {
                u64::MAX
            } else {
                (lead_in_ms + target_ms) as u64
            },
    {
        if lead_in_ms > u64::MAX - target_ms {
            self.raw_ms = u64::MAX;
        } else {
            self.raw_ms = lead_in_ms + target_ms;
        }
    }
}

/// Pausing is idempotent: applying the pause transition to an already paused
/// clock changes nothing.
pub proof fn lemma_pause_idempotent(c: Clock)
    ensures
        paused_clock(paused_clock(c)) == paused_clock(c),
{
}

} // verus!
