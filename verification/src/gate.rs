//! The play-along gate: merges live key-press reports from independent
//! sources into a per-key pressed state and decides whether the clock may
//! advance. Blocking is a hard stall: with a required key unpressed the
//! allowed advance is zero, whatever the wall delta.

use vstd::prelude::*;
use vstd::pervasive::VecAdditionalExecFns;
use crate::cursor::KEY_SLOTS;

verus! {

/// Which source reports a key press: the user's live input device, or the
/// file-driven automatic playback. The sources are independent, so automatic
/// visuals and live input can both claim a key without clobbering each other.
#[derive(Clone, Copy, PartialEq, Eq, Structural, Debug)]
pub enum KeyPressSource {
    User,
    File,
}

/// Per-key press state for every source, and the set of keys the next due
/// instant requires. A key is effectively pressed when any source reports it
/// down.
pub struct PlayAlong {
    pub user_pressed: Vec<bool>,
    pub file_pressed: Vec<bool>,
    pub required: Vec<bool>,
}

/// A vector of `KEY_SLOTS` cleared flags.
fn false_slots() -> (v: Vec<bool>)
    ensures
        v@.len() == KEY_SLOTS,
        forall|i: int| 0 <= i < KEY_SLOTS ==> !(#[trigger] v@[i]),
{
    let mut v: Vec<bool> = Vec::new();
    while v.len() < KEY_SLOTS
        invariant
            v@.len() <= KEY_SLOTS,
            forall|i: int| 0 <= i < v@.len() ==> !(#[trigger] v@[i]),
        decreases KEY_SLOTS - v.len(),
    {
        v.push(false);
    }
    v
}

impl PlayAlong {
    /// Well-formedness: one flag per key slot in each table.
    pub open spec fn wf(self) -> bool {
        &&& self.user_pressed@.len() == KEY_SLOTS
        &&& self.file_pressed@.len() == KEY_SLOTS
        &&& self.required@.len() == KEY_SLOTS
    }

    /// Whether `source` currently reports `k` as down.
    pub open spec fn pressed_by_spec(self, source: KeyPressSource, k: u8) -> bool {
        match source {
            KeyPressSource::User => self.user_pressed@[k as int],
            KeyPressSource::File => self.file_pressed@[k as int],
        }
    }

    /// A key is effectively pressed when any source reports it down.
    pub open spec fn effectively_pressed_spec(self, k: u8) -> bool {
        self.user_pressed@[k as int] || self.file_pressed@[k as int]
    }

    /// Whether `k` belongs to the current required-key set.
    pub open spec fn is_required_spec(self, k: u8) -> bool {
        self.required@[k as int]
    }

    /// Every required key is effectively pressed (vacuously true when no key
    /// is required).
    pub open spec fn all_required_pressed_spec(self) -> bool {
        forall|k: u8| #[trigger] self.is_required_spec(k) ==> self.effectively_pressed_spec(k)
    }

    /// A fresh gate: nothing pressed, nothing required.
    pub fn new() -> (g: PlayAlong)
        ensures
            g.wf(),
            forall|k: u8| !(#[trigger] g.effectively_pressed_spec(k)),
            forall|k: u8| !(#[trigger] g.is_required_spec(k)),
    {
        PlayAlong { user_pressed: false_slots(), file_pressed: false_slots(), required: false_slots() }
    }

    /// Record a key-press report from one source; the last write per
    /// (source, key) wins and no other key or source is touched. Safe to call
    /// from the live-input path between ticks: it never reads or alters the
    /// required set.
    pub fn press_key(&mut self, source: KeyPressSource, key: u8, is_down: bool)
        requires
            old(self).wf(),
        ensures
            final(self).wf(),
            source is User ==> final(self).user_pressed@ == old(self).user_pressed@.update(
                key as int,
                is_down,
            ) && final(self).file_pressed@ == old(self).file_pressed@,
            source is File ==> final(self).file_pressed@ == old(self).file_pressed@.update(
                key as int,
                is_down,
            ) && final(self).user_pressed@ == old(self).user_pressed@,
            final(self).required@ == old(self).required@,
    {
        match source {
            KeyPressSource::User => self.user_pressed.set(key as usize, is_down),
            KeyPressSource::File => self.file_pressed.set(key as usize, is_down),
        }
    }

    /// Whether any source currently reports `key` as down; consumed by the
    /// keyboard renderer to paint pressed feedback.
    pub fn effectively_pressed(&self, key: u8) -> (r: bool)
        requires
            self.wf(),
        ensures
            r == self.effectively_pressed_spec(key),
    {
        self.user_pressed[key as usize] || self.file_pressed[key as usize]
    }

    /// Whether `key` is currently required; consumed by the keyboard renderer
    /// to paint must-press feedback.
    pub fn is_key_required(&self, key: u8) -> (r: bool)
        requires
            self.wf(),
        ensures
            r == self.is_required_spec(key),
    {
        self.required[key as usize]
    }

    /// Whether every required key is effectively pressed right now.
    pub fn are_required_keys_pressed(&self) -> (r: bool)
        requires
            self.wf(),
        ensures
            r == self.all_required_pressed_spec(),
    {
        let mut k: usize = 0;
        while k < KEY_SLOTS
            invariant
                k <= KEY_SLOTS,
                self.wf(),
                forall|kk: u8|
                    (kk as int) < k ==> (#[trigger] self.is_required_spec(kk)
                        ==> self.effectively_pressed_spec(kk)),
            decreases KEY_SLOTS - k,
        {
            if self.required[k] && !(self.user_pressed[k] || self.file_pressed[k]) {
                proof {
                    assert(self.is_required_spec(k as u8) && !self.effectively_pressed_spec(
                        k as u8,
                    ));
                }
                return false;
            }
            k = k + 1;
        }
        proof {
            assert forall|kk: u8| #[trigger]
                self.is_required_spec(kk) implies self.effectively_pressed_spec(kk) by {
                assert((kk as int) < KEY_SLOTS);
            }
        }
        true
    }

    /// Replace the required-key set with the given keys.
    pub fn set_required(&mut self, keys: &Vec<u8>)
        requires
            old(self).wf(),
        ensures
            final(self).wf(),
            final(self).user_pressed@ == old(self).user_pressed@,
            final(self).file_pressed@ == old(self).file_pressed@,
            forall|k: u8| #[trigger] final(self).is_required_spec(k) <==> keys@.contains(k),
    {
        self.required = false_slots();
        let n = keys.len();
        let mut i: usize = 0;
        while i < n
            invariant
                self.wf(),
                self.user_pressed@ == old(self).user_pressed@,
                self.file_pressed@ == old(self).file_pressed@,
                n == keys@.len(),
                i <= n,
                forall|k: u8|
                    #[trigger] self.is_required_spec(k) <==> exists|j: int|
                        0 <= j < i && keys@[j] == k,
            decreases n - i,
        {
            let key = keys[i];
            let ghost prev = *self;
            self.required.set(key as usize, true);
            proof {
                assert forall|k: u8| #[trigger]
                    self.is_required_spec(k) <==> exists|j: int|
                        0 <= j < i + 1 && keys@[j] == k by {
                    if k == key {
                        assert(keys@[i as int] == k);
                        assert(self.is_required_spec(k));
                    } else {
                        assert(self.is_required_spec(k) == prev.is_required_spec(k));
                        if prev.is_required_spec(k) {
                            let j = choose|j: int| 0 <= j < i && keys@[j] == k;
                            assert(0 <= j < i + 1 && keys@[j] == k);
                        }
                        if exists|j: int| 0 <= j < i + 1 && keys@[j] == k {
                            let j = choose|j: int| 0 <= j < i + 1 && keys@[j] == k;
                            if j < i {
                                assert(prev.is_required_spec(k));
                            }
                        }
                    }
                }
            }
            i = i + 1;
        }
    }

    /// How far the play-along gate lets the clock advance this tick: unbounded when
    /// play-along is disabled, when nothing is required, or when every
    /// required key is effectively pressed; otherwise zero, whatever the wall
    /// delta. Freezing is a same-tick decision, never a wait.
    pub fn max_allowed_advance(&self, play_along_enabled: bool) -> (d: u64)
        requires
            self.wf(),
        ensures
            d == if !play_along_enabled || self.all_required_pressed_spec() {
                u64::MAX
            } else {
                0u64
            },
    {
        if !play_along_enabled {
            return u64::MAX;
        }
        if self.are_required_keys_pressed() {
            u64::MAX
        } else {
            0
        }
    }
}

} // verus!
