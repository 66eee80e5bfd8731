//! The event cursor walks the immutable, time-ascending event list, yielding
//! exactly the events that became due since the last dispatch, and supports a
//! rewind-safe reseek that synthesizes implicit NoteOffs for keys left open.

use vstd::prelude::*;
use vstd::pervasive::VecAdditionalExecFns;
use crate::events::EventKind;
use crate::events::RawEvent;
use crate::events::PlaybackError;
use crate::events::time_sorted;
use crate::dispatch::cut;
use crate::dispatch::tie_reorder;
use crate::dispatch::offs_of;
use crate::dispatch::ons_of;
use crate::dispatch::open_at;
use crate::dispatch::prefix_holds_open;
use crate::dispatch::required_at;
use crate::dispatch::lemma_cut_properties;
use crate::dispatch::lemma_tie_reorder_extend;
use crate::dispatch::lemma_monotonic_dispatch;
use crate::dispatch::lemma_tie_reorder_ordered;
use crate::dispatch::dispatch_ordered;

verus! {

/// Number of key slots the engine tracks; every `u8` key identifier fits.
pub const KEY_SLOTS: usize = 256;

/// Where the cursor stands after consuming time `t` from position `lo`: it
/// advances to the partition point of `t` but never moves backward.
pub open spec fn advanced_index(s: Seq<RawEvent>, lo: int, t: u64) -> int {
    if cut(s, t) > lo {
        cut(s, t)
    } else {
        lo
    }
}

/// Cursor into the immutable event sequence. Events before `index` have been
/// dispatched; events from `index` on are still pending.
pub struct EventCursor {
    pub events: Vec<RawEvent>,
    pub index: usize,
}

impl EventCursor {
    /// Well-formedness: the sequence is time-ascending with a positive total
    /// duration, and the cursor lies inside it.
    pub open spec fn wf(self) -> bool {
        &&& time_sorted(self.events@)
        &&& self.index <= self.events@.len()
        &&& self.events@.len() > 0
        &&& self.events@.last().time > 0
    }

    /// The time of the last event: the total duration of the content.
    pub open spec fn total_duration_spec(self) -> u64 {
        self.events@.last().time
    }

    /// Build a cursor over the supplied event list. A list that is not
    /// time-ascending is rejected rather than silently fixed; so is one whose
    /// total duration would not be positive.
    #[verifier::loop_isolation(false)]
    pub fn new(events: Vec<RawEvent>) -> (r: Result<EventCursor, PlaybackError>)
        ensures
            r matches Err(e) ==> (e == PlaybackError::NotTimeAscending <==> !time_sorted(events@)),
            r is Err <==> (!time_sorted(events@) || events@.len() == 0 || events@.last().time
                == 0),
            r matches Ok(c) ==> c.wf() && c.events@ == events@ && c.index == 0,
    {
        let ghost s = events@;
        let n = events.len();
        let mut i: usize = 0;
        while i + 1 < n
            invariant
                i == 0 || i < n,
                forall|p: int, q: int|
                    0 <= p <= q <= i && q < n ==> (#[trigger] s[p]).time <= (#[trigger] s[q]).time,
            decreases n - i,
        {
            if events[i].time > events[i + 1].time {
                return Err(PlaybackError::NotTimeAscending);
            }
            proof {
                assert forall|p: int, q: int|
                    0 <= p <= q <= i + 1 && q < n implies (#[trigger] s[p]).time
                    <= (#[trigger] s[q]).time by {
                    if q == i + 1 && p <= i {
                        assert(s[p].time <= s[i as int].time);
                    }
                }
            }
            i = i + 1;
        }
        proof {
            assert(time_sorted(s));
        }
        if n == 0 {
            return Err(PlaybackError::ZeroDuration);
        }
        if events[n - 1].time == 0 {
            return Err(PlaybackError::ZeroDuration);
        }
        Ok(EventCursor { events, index: 0 })
    }

    /// The total duration of the content: the time of the last event.
    pub fn total_duration(&self) -> (t: u64)
        requires
            self.wf(),
        ensures
            t == self.total_duration_spec(),
    {
        self.events[self.events.len() - 1].time
    }

    /// Current cursor position: how many events have been dispatched.
    pub fn position(&self) -> (i: usize)
        ensures
            i == self.index,
    {
        self.index
    }

    /// Return, in dispatch order, all events that are due at `committed` and
    /// were not returned before, then advance the cursor past them. Within the
    /// batch, times ascend and at equal times every NoteOff precedes every
    /// NoteOn. A committed time that moved backward yields an empty batch:
    /// rewinding is done only through an explicit reseek.
    #[verifier::loop_isolation(false)]
    #[verifier::rlimit(60)]
    pub fn events_due(&mut self, committed: u64) -> (batch: Vec<RawEvent>)
        requires
            old(self).wf(),
        ensures
            final(self).wf(),
            final(self).events@ == old(self).events@,
            old(self).index <= final(self).index,
            final(self).index == advanced_index(old(self).events@, old(self).index as int, committed),
            batch@ == tie_reorder(
                old(self).events@.subrange(old(self).index as int, final(self).index as int),
            ),
    {
        let ghost s = self.events@;
        let ghost lo = self.index as int;
        proof {
            lemma_cut_properties(s, committed);
        }
        let n = self.events.len();
        let mut batch: Vec<RawEvent> = Vec::new();
        while self.index < n && self.events[self.index].time <= committed
            invariant
                self.events@ == s,
                n == s.len(),
                time_sorted(s),
                lo <= self.index <= n,
                forall|i: int| lo <= i < self.index ==> (#[trigger] s[i]).time <= committed,
                self.index as int == lo || self.index as int == n || s[self.index - 1].time
                    < s[self.index as int].time,
                batch@ == tie_reorder(s.subrange(lo, self.index as int)),
            decreases n - self.index,
        {
            let gstart = self.index;
            let t = self.events[gstart].time;
            let mut ge = gstart;
            while ge < n && self.events[ge].time == t
                invariant
                    self.events@ == s,
                    n == s.len(),
                    gstart <= ge <= n,
                    forall|i: int| gstart <= i < ge ==> (#[trigger] s[i]).time == t,
                decreases n - ge,
            {
                ge = ge + 1;
            }
            let ghost gs = gstart as int;
            let mut i = gstart;
            while i < ge
                invariant
                    self.events@ == s,
                    n == s.len(),
                    gstart <= i <= ge <= n,
                    batch@ == tie_reorder(s.subrange(lo, gs)) + offs_of(s.subrange(gs, i as int)),
                decreases ge - i,
            {
                let e = self.events[i];
                proof {
                    assert(s.subrange(gs, i + 1).drop_last() =~= s.subrange(gs, i as int));
                    assert(s.subrange(gs, i + 1).last() == s[i as int]);
                }
                if e.kind == EventKind::NoteOff {
                    batch.push(e);
                    proof {
                        assert(batch@ =~= tie_reorder(s.subrange(lo, gs)) + offs_of(
                            s.subrange(gs, i + 1),
                        ));
                    }
                }
                i = i + 1;
            }
            let mut i = gstart;
            while i < ge
                invariant
                    self.events@ == s,
                    n == s.len(),
                    gstart <= i <= ge <= n,
                    batch@ == tie_reorder(s.subrange(lo, gs)) + offs_of(s.subrange(gs, ge as int))
                        + ons_of(s.subrange(gs, i as int)),
                decreases ge - i,
            {
                let e = self.events[i];
                proof {
                    assert(s.subrange(gs, i + 1).drop_last() =~= s.subrange(gs, i as int));
                    assert(s.subrange(gs, i + 1).last() == s[i as int]);
                }
                if e.kind == EventKind::NoteOn {
                    batch.push(e);
                    proof {
                        assert(batch@ =~= tie_reorder(s.subrange(lo, gs)) + offs_of(
                            s.subrange(gs, ge as int),
                        ) + ons_of(s.subrange(gs, i + 1)));
                    }
                } else {
                    proof {
                        assert(batch@ == tie_reorder(s.subrange(lo, gs)) + offs_of(
                            s.subrange(gs, ge as int),
                        ) + ons_of(s.subrange(gs, i + 1)));
                    }
                }
                i = i + 1;
            }
            proof {
                let a = s.subrange(lo, gs);
                let g = s.subrange(gs, ge as int);
                assert(g[0] == s[gs]);
                assert forall|j: int| 0 <= j < a.len() implies (#[trigger] a[j]).time
                    < g[0].time by {
                    assert(a[j] == s[lo + j]);
                    assert(s[lo + j].time <= s[gs - 1].time);
                }
                lemma_tie_reorder_extend(a, g);
                assert(a + g =~= s.subrange(lo, ge as int));
                assert(batch@ == tie_reorder(s.subrange(lo, ge as int)));
            }
            self.index = ge;
        }
        proof {
            if self.index as int > lo {
                assert(s[self.index - 1].time <= committed);
            }
            assert(self.index as int == advanced_index(s, lo, committed));
        }
        batch
    }

    /// Keys required at the next due instant: every key struck by a NoteOn at
    /// the time of the first pending event. The result lists each required key
    /// once, in ascending order; it is empty when no event is pending.
    #[verifier::loop_isolation(false)]
    pub fn next_required(&self) -> (req: Vec<u8>)
        requires
            self.wf(),
        ensures
            forall|i: int, j: int| 0 <= i < j < req@.len() ==> req@[i] < req@[j],
            forall|k: u8| req@.contains(k) <==> required_at(self.events@, self.index as int, k),
    {
        let ghost s = self.events@;
        let n = self.events.len();
        let ghost idx = self.index as int;
        let mut marked: Vec<bool> = Vec::new();
        while marked.len() < KEY_SLOTS
            invariant
                forall|i: int| 0 <= i < marked@.len() ==> !(#[trigger] marked@[i]),
                marked@.len() <= KEY_SLOTS,
            decreases KEY_SLOTS - marked.len(),
        {
            marked.push(false);
        }
        if self.index >= n {
            let req: Vec<u8> = Vec::new();
            return req;
        }
        let t = self.events[self.index].time;
        let mut i = self.index;
        while i < n && self.events[i].time == t
            invariant
                self.events@ == s,
                n == s.len(),
                time_sorted(s),
                idx == self.index as int,
                idx < n,
                t == s[idx].time,
                idx <= i <= n,
                forall|j: int| idx <= j < i ==> (#[trigger] s[j]).time == t,
                marked@.len() == KEY_SLOTS,
                forall|k: u8|
                    marked@[k as int] <==> exists|j: int|
                        idx <= j < i && (#[trigger] s[j]).time == t && s[j].kind is NoteOn
                            && s[j].key == k,
            decreases n - i,
        {
            let e = self.events[i];
            if e.kind == EventKind::NoteOn {
                marked.set(e.key as usize, true);
            }
            proof {
                assert forall|k: u8|
                    marked@[k as int] <==> exists|j: int|
                        idx <= j < i + 1 && (#[trigger] s[j]).time == t && s[j].kind is NoteOn
                            && s[j].key == k by {
                    if e.kind is NoteOn && k == e.key {
                        assert(s[i as int].time == t && s[i as int].kind is NoteOn
                            && s[i as int].key == k);
                    }
                }
            }
            i = i + 1;
        }
        proof {
            // beyond the scanned run, every event lies at a strictly later
            // time, so the run decides the required set
            assert forall|k: u8|
                marked@[k as int] <==> required_at(s, idx, k) by {
                if required_at(s, idx, k) {
                    let j = choose|j: int|
                        idx <= j < s.len() && (#[trigger] s[j]).time == s[idx].time && s[
                            j
                        ].kind is NoteOn && s[j].key == k;
                    if j >= i {
                        assert(s[i as int].time <= s[j].time);
                    }
                }
            }
        }
        let mut req: Vec<u8> = Vec::new();
        let mut k: usize = 0;
        while k < KEY_SLOTS
            invariant
                marked@.len() == KEY_SLOTS,
                k <= KEY_SLOTS,
                forall|i: int, j: int| 0 <= i < j < req@.len() ==> req@[i] < req@[j],
                forall|i: int| 0 <= i < req@.len() ==> ((#[trigger] req@[i]) as int) < k,
                forall|kk: u8| req@.contains(kk) <==> ((kk as int) < k && marked@[kk as int]),
            decreases KEY_SLOTS - k,
        {
            if marked[k] {
                let ghost prev = req@;
                req.push(k as u8);
                proof {
                    assert forall|kk: u8|
                        req@.contains(kk) <==> ((kk as int) < k + 1 && marked@[kk as int]) by {
                        if (kk as int) < k + 1 && marked@[kk as int] {
                            if kk as int == k {
                                assert(req@[req@.len() - 1] == kk);
                            } else {
                                assert(prev.contains(kk));
                                let j = choose|j: int| 0 <= j < prev.len() && prev[j] == kk;
                                assert(req@[j] == kk);
                            }
                        }
                        if req@.contains(kk) {
                            let j = choose|j: int| 0 <= j < req@.len() && req@[j] == kk;
                            if j < prev.len() {
                                assert(prev[j] == kk);
                                assert(prev.contains(kk));
                            }
                        }
                    }
                }
            }
            k = k + 1;
        }
        proof {
            assert forall|kk: u8| req@.contains(kk) <==> required_at(s, idx, kk) by {
                assert((kk as int) < KEY_SLOTS);
            }
        }
        req
    }

    /// Reseek to `target`: binary-search the first event strictly later than
    /// `target`, reset the cursor there, and synthesize one NoteOff (at the
    /// target time, on track 0) for every key whose governing NoteOn lies at
    /// or before `target` while its NoteOff lies after it. Without these
    /// implicit offs a seek could leave a note rendered as held forever. The
    /// synthesized offs are returned with each open key once, keys ascending.
    #[verifier::loop_isolation(false)]
    #[verifier::rlimit(60)]
    pub fn reseek(&mut self, target: u64) -> (offs: Vec<RawEvent>)
        requires
            old(self).wf(),
        ensures
            final(self).wf(),
            final(self).events@ == old(self).events@,
            final(self).index == cut(old(self).events@, target),
            forall|i: int|
                0 <= i < offs@.len() ==> (#[trigger] offs@[i]).kind is NoteOff && offs@[i].time
                    == target && offs@[i].track == 0 && open_at(
                    old(self).events@,
                    target,
                    offs@[i].key,
                ),
            forall|k: u8|
                open_at(old(self).events@, target, k) ==> exists|i: int|
                    0 <= i < offs@.len() && (#[trigger] offs@[i]).key == k,
            forall|i: int, j: int| 0 <= i < j < offs@.len() ==> offs@[i].key < offs@[j].key,
    {
        let ghost s = self.events@;
        proof {
            lemma_cut_properties(s, target);
        }
        let n = self.events.len();
        let mut lo: usize = 0;
        let mut hi: usize = n;
        while lo < hi
            invariant
                self.events@ == s,
                n == s.len(),
                time_sorted(s),
                0 <= lo <= hi <= n,
                forall|i: int| 0 <= i < lo ==> (#[trigger] s[i]).time <= target,
                forall|i: int| hi <= i < n ==> (#[trigger] s[i]).time > target,
            decreases hi - lo,
        {
            let mid = lo + (hi - lo) / 2;
            if self.events[mid].time <= target {
                lo = mid + 1;
            } else {
                hi = mid;
            }
        }
        proof {
            if (lo as int) < cut(s, target) {
                assert(s[lo as int].time <= target);
            }
            if (lo as int) > cut(s, target) {
                assert(s[cut(s, target)].time <= target);
            }
            assert(lo as int == cut(s, target));
        }
        self.index = lo;
        let cidx = lo;
        let mut held: Vec<bool> = Vec::new();
        while held.len() < KEY_SLOTS
            invariant
                forall|i: int| 0 <= i < held@.len() ==> !(#[trigger] held@[i]),
                held@.len() <= KEY_SLOTS,
            decreases KEY_SLOTS - held.len(),
        {
            held.push(false);
        }
        proof {
            assert(s.take(0) =~= Seq::<RawEvent>::empty());
        }
        let mut i: usize = 0;
        while i < cidx
            invariant
                self.events@ == s,
                n == s.len(),
                cidx <= n,
                i <= cidx,
                held@.len() == KEY_SLOTS,
                forall|k: u8| held@[k as int] == prefix_holds_open(s.take(i as int), k),
            decreases cidx - i,
        {
            let e = self.events[i];
            held.set(e.key as usize, e.kind == EventKind::NoteOn);
            proof {
                assert(s.take(i + 1).drop_last() =~= s.take(i as int));
                assert(s.take(i + 1).last() == s[i as int]);
                assert forall|k: u8| held@[k as int] == prefix_holds_open(
                    s.take(i + 1),
                    k,
                ) by {
                    if k != e.key {
                        assert(held@[k as int] == prefix_holds_open(s.take(i as int), k));
                    }
                }
            }
            i = i + 1;
        }
        let mut offs: Vec<RawEvent> = Vec::new();
        let mut k: usize = 0;
        while k < KEY_SLOTS
            invariant
                held@.len() == KEY_SLOTS,
                k <= KEY_SLOTS,
                cidx as int == cut(s, target),
                forall|kk: u8| held@[kk as int] == prefix_holds_open(s.take(cut(s, target)), kk),
                forall|i: int|
                    0 <= i < offs@.len() ==> (#[trigger] offs@[i]).kind is NoteOff && offs@[i].time
                        == target && offs@[i].track == 0 && open_at(s, target, offs@[i].key)
                        && (offs@[i].key as int) < k,
                forall|i: int, j: int| 0 <= i < j < offs@.len() ==> offs@[i].key < offs@[j].key,
                forall|kk: u8|
                    (kk as int) < k && open_at(s, target, kk) ==> exists|i: int|
                        0 <= i < offs@.len() && (#[trigger] offs@[i]).key == kk,
            decreases KEY_SLOTS - k,
        {
            if held[k] {
                let ghost prev = offs@;
                offs.push(RawEvent { time: target, kind: EventKind::NoteOff, key: k as u8, track: 0 });
                proof {
                    assert forall|kk: u8|
                        (kk as int) < k + 1 && open_at(s, target, kk) implies exists|i: int|
                            0 <= i < offs@.len() && (#[trigger] offs@[i]).key == kk by {
                        if kk as int == k {
                            assert(offs@[offs@.len() - 1].key == kk);
                        } else {
                            let i = choose|i: int| 0 <= i < prev.len() && (#[trigger] prev[i]).key
                                == kk;
                            assert(offs@[i].key == kk);
                        }
                    }
                }
            }
            k = k + 1;
        }
        proof {
            assert forall|kk: u8|
                open_at(s, target, kk) implies exists|i: int|
                    0 <= i < offs@.len() && (#[trigger] offs@[i]).key == kk by {
                assert((kk as int) < KEY_SLOTS);
            }
        }
        offs
    }
}


/// Monotonic dispatch across ticks: for any two consecutive dispatches
/// without an intervening seek, the two batches concatenate to exactly the
/// dispatch of the whole consumed range (no event is handed out twice, none
/// is lost), and each batch is individually time-sorted with the
/// NoteOff-before-NoteOn tie-break. The indices are those `events_due`
/// reaches for committed times `t1` and then `t2`.
pub proof fn lemma_monotonic_dispatch_across_ticks(s: Seq<RawEvent>, lo: int, t1: u64, t2: u64)
    requires
        time_sorted(s),
        0 <= lo <= s.len(),
    ensures
        ({
            let a1 = advanced_index(s, lo, t1);
            let a2 = advanced_index(s, a1, t2);
            &&& lo <= a1 <= a2 <= s.len()
            &&& tie_reorder(s.subrange(lo, a1)) + tie_reorder(s.subrange(a1, a2)) == tie_reorder(
                s.subrange(lo, a2),
            )
            &&& dispatch_ordered(tie_reorder(s.subrange(lo, a1)))
            &&& dispatch_ordered(tie_reorder(s.subrange(a1, a2)))
        }),
{
    lemma_cut_properties(s, t1);
    lemma_cut_properties(s, t2);
    let a1 = advanced_index(s, lo, t1);
    let a2 = advanced_index(s, a1, t2);
    if a1 != lo && a1 != a2 {
        assert(s[a1 - 1].time <= t1);
        assert(s[a1].time > t1);
    }
    lemma_monotonic_dispatch(s, lo, a1, a2);
    let b1 = s.subrange(lo, a1);
    let b2 = s.subrange(a1, a2);
    assert forall|i: int, j: int| 0 <= i <= j < b1.len() implies (#[trigger] b1[i]).time
        <= (#[trigger] b1[j]).time by {
        assert(s[lo + i].time <= s[lo + j].time);
    }
    assert forall|i: int, j: int| 0 <= i <= j < b2.len() implies (#[trigger] b2[i]).time
        <= (#[trigger] b2[j]).time by {
        assert(s[a1 + i].time <= s[a1 + j].time);
    }
    lemma_tie_reorder_ordered(b1);
    lemma_tie_reorder_ordered(b2);
}

} // verus!
