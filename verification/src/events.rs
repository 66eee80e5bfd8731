//! Core data model: timed note events and the playback configuration.

use vstd::prelude::*;

verus! {

/// Kind of a note event. At equal times, `NoteOff` is dispatched before
/// `NoteOn` so that a release and an immediate re-strike of the same key never
/// appear in an undefined order.
#[derive(Clone, Copy, PartialEq, Eq, Structural, Debug)]
pub enum EventKind {
    NoteOff,
    NoteOn,
}

/// One timed note event. `time` is song time in milliseconds, measured from
/// the start of the musical content (the lead-in is excluded). The full event
/// sequence is supplied by the file-loading collaborator, time-ascending, and
/// is never mutated by the engine.
#[derive(Clone, Copy, PartialEq, Eq, Structural, Debug)]
pub struct RawEvent {
    pub time: u64,
    pub kind: EventKind,
    pub key: u8,
    pub track: u8,
}

/// Why a playback session cannot be constructed.
#[derive(Clone, Copy, PartialEq, Eq, Structural, Debug)]
pub enum PlaybackError {
    /// The supplied event sequence is not time-ascending.
    NotTimeAscending,
    /// The sequence is empty or its last event lies at time zero, so the
    /// total duration would not be positive.
    ZeroDuration,
}

/// The event sequence is ordered by non-decreasing time.
pub open spec fn time_sorted(s: Seq<RawEvent>) -> bool {
    forall|i: int, j: int| 0 <= i <= j < s.len() ==> (#[trigger] s[i]).time <= (#[trigger] s[j]).time
}

/// Playback configuration, owned by the surrounding application and read by
/// the engine on every tick. The speed multiplier is a fixed-point factor in
/// thousandths (1000 means real time); the offset shifts only the time
/// reported to renderers, never the internal clock.
pub struct PlaybackConfig {
    pub speed_thousandths: u64,
    pub lead_in_ms: u64,
    pub offset_ms: i64,
    pub play_along: bool,
}

/// `base + delta` clamped into the `u64` range.
pub open spec fn clamped_add_u64(base: u64, delta: i64) -> u64 {
    if base + delta < 0 {
        0u64
    } else if base + delta > u64::MAX {
        u64::MAX
    } else {
        (base + delta) as u64
    }
}

/// `base + delta` clamped into the `i64` range.
pub open spec fn clamped_add_i64(base: i64, delta: i64) -> i64 {
    if base + delta < i64::MIN {
        i64::MIN
    } else if base + delta > i64::MAX {
        i64::MAX
    } else {
        (base + delta) as i64
    }
}

impl PlaybackConfig {
    /// A fresh configuration: real-time speed, no lead-in, no offset,
    /// play-along disabled.
    pub fn new() -> (c: PlaybackConfig)
        ensures
            c.speed_thousandths == 1000u64,
            c.lead_in_ms == 0u64,
            c.offset_ms == 0i64,
            c.play_along == false,
    {
        PlaybackConfig { speed_thousandths: 1000, lead_in_ms: 0, offset_ms: 0, play_along: false }
    }

    /// Adjust the speed multiplier by `delta` thousandths, flooring at zero:
    /// a speed driven negative freezes time rather than failing.
    pub fn adjust_speed(&mut self, delta: i64)
        ensures
            final(self).speed_thousandths == clamped_add_u64(old(self).speed_thousandths, delta),
            final(self).lead_in_ms == old(self).lead_in_ms,
            final(self).offset_ms == old(self).offset_ms,
            final(self).play_along == old(self).play_along,
    {
        if delta >= 0 {
            let d = delta as u64;
            if self.speed_thousandths > u64::MAX - d {
                self.speed_thousandths = u64::MAX;
            } else {
                self.speed_thousandths = self.speed_thousandths + d;
            }
        } else {
            let d = (-(delta as i128)) as u64;
            if self.speed_thousandths < d {
                self.speed_thousandths = 0;
            } else {
                self.speed_thousandths = self.speed_thousandths - d;
            }
        }
    }

    /// Adjust the rendering offset by `delta` milliseconds. The offset is
    /// unbounded in both directions apart from the machine range; changing it
    /// mid-playback never jumps the internal clock.
    pub fn adjust_offset(&mut self, delta: i64)
        ensures
            final(self).offset_ms == clamped_add_i64(old(self).offset_ms, delta),
            final(self).speed_thousandths == old(self).speed_thousandths,
            final(self).lead_in_ms == old(self).lead_in_ms,
            final(self).play_along == old(self).play_along,
    {
        if delta >= 0 {
            if self.offset_ms > i64::MAX - delta {
                self.offset_ms = i64::MAX;
            } else {
                self.offset_ms = self.offset_ms + delta;
            }
        } else {
            if self.offset_ms < i64::MIN - delta {
                self.offset_ms = i64::MIN;
            } else {
                self.offset_ms = self.offset_ms + delta;
            }
        }
    }
}

} // verus!
