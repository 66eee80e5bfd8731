//! The playback controller combines clock, event cursor and play-along gate
//! and exposes the per-tick interface that renderers and input handlers use.

use vstd::prelude::*;
use crate::clock::Clock;
use crate::clock::advance_amount;
use crate::clock::song_time_of;
use crate::clock::paused_clock;
use crate::cursor::EventCursor;
use crate::cursor::advanced_index;
use crate::events::RawEvent;
use crate::events::PlaybackError;
use crate::events::PlaybackConfig;
use crate::events::time_sorted;
use crate::gate::PlayAlong;
use crate::gate::KeyPressSource;
use crate::dispatch::cut;
use crate::dispatch::tie_reorder;
use crate::dispatch::open_at;
use crate::dispatch::required_at;

verus! {

/// One million parts per million: the fraction scale used for seeking and
/// progress reporting.
pub const PPM_SCALE: u64 = 1000000;

/// The song time a seek fraction addresses: the fraction (clamped into
/// [0, 1], in parts per million) of the total duration, rounding down.
pub open spec fn seek_target(fraction_ppm: u64, total: u64) -> u64 {
    let f = if fraction_ppm > PPM_SCALE {
        PPM_SCALE as int
    } else {
        fraction_ppm as int
    };
    ((f * total) / (PPM_SCALE as int)) as u64
}

/// Playback progress in parts per million of the total duration, capped at
/// one whole.
pub open spec fn progress_of(t: u64, total: u64) -> u64 {
    if t >= total {
        PPM_SCALE
    } else {
        ((t * PPM_SCALE) / (total as int)) as u64
    }
}

/// Time as reported to renderers: the committed song time shifted by the
/// configured offset, clamped into the machine range. The offset never moves
/// the internal clock, so changing it mid-playback shifts only the rendered
/// time-to-pixel mapping, never event dispatch.
pub open spec fn render_time_spec(t: u64, offset_ms: i64) -> i64 {
    if t + offset_ms > i64::MAX {
        i64::MAX
    } else {
        (t + offset_ms) as i64
    }
}

/// The playback engine: simulated clock, cursor over the immutable event
/// list, and play-along gate.
pub struct PlaybackController {
    pub clock: Clock,
    pub cursor: EventCursor,
    pub gate: PlayAlong,
}

impl PlaybackController {
    /// Well-formedness: the parts are well-formed and the play-along gate's required-key
    /// set is exactly what the cursor's next due instant demands.
    pub open spec fn wf(self) -> bool {
        &&& self.cursor.wf()
        &&& self.gate.wf()
        &&& forall|k: u8|
            #[trigger] self.gate.is_required_spec(k) <==> required_at(
                self.cursor.events@,
                self.cursor.index as int,
                k,
            )
    }

    /// Committed song time under the given lead-in.
    pub open spec fn song_time_spec(self, lead_in_ms: u64) -> u64 {
        song_time_of(self.clock.raw_ms, lead_in_ms)
    }

    /// Playback has run past the last event.
    pub open spec fn ended_spec(self, lead_in_ms: u64) -> bool {
        self.song_time_spec(lead_in_ms) > self.cursor.total_duration_spec()
    }

    /// The play-along gate forbids any advance: play-along is on and a required key is
    /// not effectively pressed.
    pub open spec fn blocked_spec(self, play_along: bool) -> bool {
        play_along && !self.gate.all_required_pressed_spec()
    }

    /// Build an engine over the supplied event list. The list must be
    /// time-ascending with a positive total duration; a malformed list is
    /// rejected, never silently fixed. The engine starts running (not paused)
    /// at time zero with nothing pressed.
    pub fn new(events: Vec<RawEvent>) -> (r: Result<PlaybackController, PlaybackError>)
        ensures
            r is Err <==> (!time_sorted(events@) || events@.len() == 0 || events@.last().time
                == 0),
            r matches Err(e) ==> (e == PlaybackError::NotTimeAscending <==> !time_sorted(events@)),
            r matches Ok(c) ==> c.wf() && c.cursor.events@ == events@ && c.cursor.index == 0
                && c.clock.raw_ms == 0 && !c.clock.paused && (forall|k: u8|
                !(#[trigger] c.gate.effectively_pressed_spec(k))),
    {
        match EventCursor::new(events) {
            Err(e) => Err(e),
            Ok(cursor) => {
                let mut gate = PlayAlong::new();
                let ghost g0 = gate;
                let req = cursor.next_required();
                gate.set_required(&req);
                proof {
                    assert forall|k: u8|
                        #[trigger] gate.is_required_spec(k) <==> required_at(
                            cursor.events@,
                            cursor.index as int,
                            k,
                        ) by {
                        assert(req@.contains(k) <==> required_at(
                            cursor.events@,
                            cursor.index as int,
                            k,
                        ));
                    }
                    assert forall|k: u8| !(#[trigger] gate.effectively_pressed_spec(k)) by {
                        assert(!g0.effectively_pressed_spec(k));
                    }
                }
                Ok(PlaybackController { clock: Clock::new(), cursor, gate })
            },
        }
    }

    /// One frame tick. Ended playback yields `None` (the renderer resets to
    /// idle). A paused engine, and one frozen by the play-along gate, changes nothing
    /// and yields an empty batch. Otherwise the clock advances by the wall
    /// delta scaled with the configured speed, the events that became due are
    /// returned in dispatch order, and the required-key set is rebuilt from
    /// the new lookahead.
    pub fn tick(&mut self, wall_delta: u64, config: &PlaybackConfig) -> (r: Option<
        Vec<RawEvent>,
    >)
        requires
            old(self).wf(),
        ensures
            final(self).wf(),
            final(self).cursor.events@ == old(self).cursor.events@,
            final(self).gate.user_pressed@ == old(self).gate.user_pressed@,
            final(self).gate.file_pressed@ == old(self).gate.file_pressed@,
            final(self).clock.paused == old(self).clock.paused,
            old(self).ended_spec(config.lead_in_ms) ==> r is None && *final(self) == *old(self),
            !old(self).ended_spec(config.lead_in_ms) && old(self).clock.paused ==> (r matches Some(
                b,
            ) && b@ == Seq::<RawEvent>::empty()) && *final(self) == *old(self),
            !old(self).ended_spec(config.lead_in_ms) && !old(self).clock.paused && old(
                self,
            ).blocked_spec(config.play_along) ==> (r matches Some(b) && b@ == Seq::<
                RawEvent,
            >::empty()) && *final(self) == *old(self),
            !old(self).ended_spec(config.lead_in_ms) && !old(self).clock.paused && !old(
                self,
            ).blocked_spec(config.play_along) ==> {
                let raw = if old(self).clock.raw_ms + advance_amount(
                    wall_delta,
                    config.speed_thousandths,
                    u64::MAX,
                ) > u64::MAX {
                    u64::MAX
                } else {
                    (old(self).clock.raw_ms + advance_amount(
                        wall_delta,
                        config.speed_thousandths,
                        u64::MAX,
                    )) as u64
                };
                let idx = advanced_index(
                    old(self).cursor.events@,
                    old(self).cursor.index as int,
                    song_time_of(raw, config.lead_in_ms),
                );
                &&& final(self).clock.raw_ms == raw
                &&& final(self).cursor.index == idx
                &&& (r matches Some(b) && b@ == tie_reorder(
                    old(self).cursor.events@.subrange(old(self).cursor.index as int, idx),
                ))
            },
    {
        let total = self.cursor.total_duration();
        let committed_before = self.clock.time_without_lead_in(config.lead_in_ms);
        if committed_before > total {
            return None;
        }
        if self.clock.paused {
            return Some(Vec::new());
        }
        let max_allowed = self.gate.max_allowed_advance(config.play_along);
        if max_allowed == 0 {
            return Some(Vec::new());
        }
        self.clock.advance(wall_delta, config.speed_thousandths, max_allowed);
        let committed = self.clock.time_without_lead_in(config.lead_in_ms);
        let batch = self.cursor.events_due(committed);
        let req = self.cursor.next_required();
        self.gate.set_required(&req);
        Some(batch)
    }

    /// Seek to a fraction of the total duration, given in parts per million
    /// and clamped into [0, 1]: the clock jumps there, the cursor reseeks,
    /// implicit NoteOffs for keys left open at the target are returned, and
    /// the required-key set is rebuilt. Pause state and key presses are kept.
    /// The post-state depends only on the target, never on the history, so
    /// seeking is idempotent.
    pub fn seek_to_fraction_ppm(&mut self, fraction_ppm: u64, config: &PlaybackConfig) -> (offs:
        Vec<RawEvent>)
        requires
            old(self).wf(),
        ensures
            final(self).wf(),
            final(self).cursor.events@ == old(self).cursor.events@,
            final(self).gate.user_pressed@ == old(self).gate.user_pressed@,
            final(self).gate.file_pressed@ == old(self).gate.file_pressed@,
            final(self).clock.paused == old(self).clock.paused,
            ({
                let target = seek_target(fraction_ppm, old(self).cursor.total_duration_spec());
                &&& final(self).clock.raw_ms == if config.lead_in_ms + target > u64::MAX {
                    u64::MAX
                } else {
                    (config.lead_in_ms + target) as u64
                }
                &&& final(self).cursor.index == cut(old(self).cursor.events@, target)
                &&& forall|i: int|
                    0 <= i < offs@.len() ==> (#[trigger] offs@[i]).kind is NoteOff && offs@[i].time
                        == target && offs@[i].track == 0 && open_at(
                        old(self).cursor.events@,
                        target,
                        offs@[i].key,
                    )
                &&& forall|k: u8|
                    open_at(old(self).cursor.events@, target, k) ==> exists|i: int|
                        0 <= i < offs@.len() && (#[trigger] offs@[i]).key == k
                &&& forall|i: int, j: int| 0 <= i < j < offs@.len() ==> offs@[i].key < offs@[j].key
            }),
    {
        let total = self.cursor.total_duration();
        let f = if fraction_ppm > PPM_SCALE {
            PPM_SCALE
        } else {
            fraction_ppm
        };
        proof {
            assert(f * total <= PPM_SCALE * total) by (nonlinear_arith)
                requires
                    f <= PPM_SCALE,
                    0 <= total,
            ;
            assert(PPM_SCALE * total <= PPM_SCALE * u64::MAX) by (nonlinear_arith)
                requires
                    total <= u64::MAX,
            ;
        }
        let scaled: u128 = (f as u128) * (total as u128) / (PPM_SCALE as u128);
        proof {
            assert((PPM_SCALE as int) * total / (PPM_SCALE as int) == total) by (nonlinear_arith)
                requires
                    0 <= total,
            ;
            assert(f * total / (PPM_SCALE as int) <= PPM_SCALE * total / (PPM_SCALE as int)) by (
            nonlinear_arith)
                requires
                    f * total <= PPM_SCALE * total,
                    PPM_SCALE > 0,
            ;
        }
        let target = scaled as u64;
        self.clock.set_song_time(target, config.lead_in_ms);
        let offs = self.cursor.reseek(target);
        let req = self.cursor.next_required();
        self.gate.set_required(&req);
        offs
    }

    /// Pause playback: a mode switch, distinct from zero speed. Idempotent.
    pub fn pause(&mut self)
        requires
            old(self).wf(),
        ensures
            final(self).wf(),
            final(self).clock == paused_clock(old(self).clock),
            final(self).cursor == old(self).cursor,
            final(self).gate == old(self).gate,
    {
        self.clock.pause();
    }

    /// Resume playback; wall time skipped while paused is not reinjected.
    pub fn resume(&mut self)
        requires
            old(self).wf(),
        ensures
            final(self).wf(),
            final(self).clock.raw_ms == old(self).clock.raw_ms,
            !final(self).clock.paused,
            final(self).cursor == old(self).cursor,
            final(self).gate == old(self).gate,
    {
        self.clock.resume();
    }

    /// Toggle between paused and running.
    pub fn toggle_pause(&mut self)
        requires
            old(self).wf(),
        ensures
            final(self).wf(),
            final(self).clock.raw_ms == old(self).clock.raw_ms,
            final(self).clock.paused == !old(self).clock.paused,
            final(self).cursor == old(self).cursor,
            final(self).gate == old(self).gate,
    {
        if self.clock.paused {
            self.clock.resume();
        } else {
            self.clock.pause();
        }
    }

    /// Forward a live key-press report to the play-along gate. Safe between ticks: it
    /// touches only the one (source, key) slot, never the required set or the
    /// clock.
    pub fn press_key(&mut self, source: KeyPressSource, key: u8, is_down: bool)
        requires
            old(self).wf(),
        ensures
            final(self).wf(),
            final(self).clock == old(self).clock,
            final(self).cursor == old(self).cursor,
            final(self).gate.required@ == old(self).gate.required@,
            source is User ==> final(self).gate.user_pressed@ == old(
                self,
            ).gate.user_pressed@.update(key as int, is_down) && final(self).gate.file_pressed@
                == old(self).gate.file_pressed@,
            source is File ==> final(self).gate.file_pressed@ == old(
                self,
            ).gate.file_pressed@.update(key as int, is_down) && final(self).gate.user_pressed@
                == old(self).gate.user_pressed@,
    {
        self.gate.press_key(source, key, is_down);
        proof {
            assert forall|k: u8|
                #[trigger] self.gate.is_required_spec(k) <==> required_at(
                    self.cursor.events@,
                    self.cursor.index as int,
                    k,
                ) by {
                assert(self.gate.is_required_spec(k) == old(self).gate.is_required_spec(k));
            }
        }
    }

    /// Committed song time under the configured lead-in, for renderers.
    pub fn time_without_lead_in(&self, config: &PlaybackConfig) -> (t: u64)
        ensures
            t == self.song_time_spec(config.lead_in_ms),
    {
        self.clock.time_without_lead_in(config.lead_in_ms)
    }

    /// The time renderers map to screen positions: committed song time plus
    /// the configured offset. Only the reported value shifts; event dispatch
    /// keeps following the unshifted clock.
    pub fn render_time_ms(&self, config: &PlaybackConfig) -> (t: i64)
        ensures
            t == render_time_spec(self.song_time_spec(config.lead_in_ms), config.offset_ms),
    {
        let base = self.clock.time_without_lead_in(config.lead_in_ms);
        let v: i128 = (base as i128) + (config.offset_ms as i128);
        if v > (i64::MAX as i128) {
            i64::MAX
        } else {
            v as i64
        }
    }

    /// Playback progress in parts per million of the total duration, capped
    /// at one whole; consumed by the progress-bar renderer.
    pub fn progress_ppm(&self, config: &PlaybackConfig) -> (p: u64)
        requires
            self.wf(),
        ensures
            p == progress_of(
                self.song_time_spec(config.lead_in_ms),
                self.cursor.total_duration_spec(),
            ),
    {
        let total = self.cursor.total_duration();
        let t = self.clock.time_without_lead_in(config.lead_in_ms);
        if t >= total {
            return PPM_SCALE;
        }
        let scaled: u128 = (t as u128) * (PPM_SCALE as u128) / (total as u128);
        proof {
            assert(t * PPM_SCALE <= u64::MAX * PPM_SCALE) by (nonlinear_arith)
                requires
                    t <= u64::MAX,
            ;
            assert(t * PPM_SCALE < total * PPM_SCALE) by (nonlinear_arith)
                requires
                    t < total,
                    PPM_SCALE > 0,
            ;
            assert(t * PPM_SCALE / (total as int) < PPM_SCALE) by (nonlinear_arith)
                requires
                    total > 0,
                    0 <= t * PPM_SCALE,
                    t * PPM_SCALE < total * PPM_SCALE,
            ;
        }
        scaled as u64
    }

    /// Whether every required key is effectively pressed right now.
    pub fn are_required_keys_pressed(&self) -> (r: bool)
        requires
            self.wf(),
        ensures
            r == self.gate.all_required_pressed_spec(),
    {
        self.gate.are_required_keys_pressed()
    }

    /// The total duration of the loaded content in milliseconds.
    pub fn total_duration(&self) -> (t: u64)
        requires
            self.wf(),
        ensures
            t == self.cursor.total_duration_spec(),
    {
        self.cursor.total_duration()
    }
}

/// Seeking is history-free: two engines over the same content that last
/// seeked (or advanced) to the same cursor position agree on the cursor and
/// on the required-key set, so seeking to T after any detour equals seeking
/// to T directly.
pub proof fn lemma_seek_idempotent(a: PlaybackController, b: PlaybackController, t: u64)
    requires
        a.wf(),
        b.wf(),
        a.cursor.events@ == b.cursor.events@,
        a.cursor.index == cut(a.cursor.events@, t),
        b.cursor.index == cut(b.cursor.events@, t),
    ensures
        a.cursor.index == b.cursor.index,
        forall|k: u8| a.gate.is_required_spec(k) <==> b.gate.is_required_spec(k),
{
    assert forall|k: u8| a.gate.is_required_spec(k) <==> b.gate.is_required_spec(k) by {
        assert(a.gate.is_required_spec(k) <==> required_at(
            a.cursor.events@,
            a.cursor.index as int,
            k,
        ));
        assert(b.gate.is_required_spec(k) <==> required_at(
            b.cursor.events@,
            b.cursor.index as int,
            k,
        ));
    }
}

} // verus!
