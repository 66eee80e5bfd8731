//! Dispatch-order model: which events of a time-sorted sequence are due at a
//! committed time, in what order a due batch is handed out, which keys are
//! open (held) at a time, and which keys the next due instant requires.

use vstd::prelude::*;
use crate::events::RawEvent;
use crate::events::time_sorted;

verus! {

/// Number of leading events with `time <= t`. For a time-sorted sequence this
/// is the partition point: every event before it is due at `t`, every event
/// from it on is not.
pub open spec fn cut(s: Seq<RawEvent>, t: u64) -> int
    decreases s.len(),
{
    if s.len() == 0 {
        0
    } else if s[0].time <= t {
        1 + cut(s.drop_first(), t)
    } else {
        0
    }
}

pub proof fn lemma_cut_properties(s: Seq<RawEvent>, t: u64)
    requires
        time_sorted(s),
    ensures
        0 <= cut(s, t) <= s.len(),
        forall|i: int| 0 <= i < cut(s, t) ==> (#[trigger] s[i]).time <= t,
        forall|i: int| cut(s, t) <= i < s.len() ==> (#[trigger] s[i]).time > t,
    decreases s.len(),
{
    if s.len() > 0 {
        let d = s.drop_first();
        assert(forall|i: int| 0 <= i < d.len() ==> d[i] == s[i + 1]);
        lemma_cut_properties(d, t);
        if s[0].time <= t {
            assert forall|i: int| 0 <= i < cut(s, t) implies (#[trigger] s[i]).time <= t by {
                if i > 0 {
                    assert(d[i - 1] == s[i]);
                }
            }
            assert forall|i: int| cut(s, t) <= i < s.len() implies (#[trigger] s[i]).time > t by {
                assert(d[i - 1] == s[i]);
            }
        }
    }
}

/// Length of the leading run of events that share the first event's time.
pub open spec fn group_len(s: Seq<RawEvent>) -> int
    decreases s.len(),
{
    if s.len() == 0 {
        0
    } else if s.len() == 1 {
        1
    } else if s[1].time == s[0].time {
        1 + group_len(s.drop_first())
    } else {
        1
    }
}

pub proof fn lemma_group_len(s: Seq<RawEvent>)
    requires
        s.len() > 0,
    ensures
        1 <= group_len(s) <= s.len(),
        forall|i: int| 0 <= i < group_len(s) ==> (#[trigger] s[i]).time == s[0].time,
        group_len(s) < s.len() ==> s[group_len(s)].time != s[0].time,
    decreases s.len(),
{
    if s.len() > 1 && s[1].time == s[0].time {
        let d = s.drop_first();
        assert(forall|i: int| 0 <= i < d.len() ==> d[i] == s[i + 1]);
        lemma_group_len(d);
        assert forall|i: int| 0 <= i < group_len(s) implies (#[trigger] s[i]).time == s[0].time by {
            if i > 0 {
                assert(d[i - 1] == s[i]);
            }
        }
        if group_len(s) < s.len() {
            assert(d[group_len(s) - 1] == s[group_len(s)]);
        }
    }
}

/// A sequence whose events all share one time is a single group.
pub proof fn lemma_group_len_all_equal(s: Seq<RawEvent>)
    requires
        s.len() > 0,
        forall|i: int| 0 <= i < s.len() ==> (#[trigger] s[i]).time == s[0].time,
    ensures
        group_len(s) == s.len(),
    decreases s.len(),
{
    if s.len() > 1 {
        let d = s.drop_first();
        assert(forall|i: int| 0 <= i < d.len() ==> d[i] == s[i + 1]);
        lemma_group_len_all_equal(d);
    }
}

/// Appending events of a different time does not change the leading group.
pub proof fn lemma_group_len_append(a: Seq<RawEvent>, b: Seq<RawEvent>)
    requires
        a.len() > 0,
        b.len() == 0 || b[0].time != a[0].time,
    ensures
        group_len(a + b) == group_len(a),
    decreases a.len(),
{
    let c = a + b;
    if a.len() == 1 {
        if b.len() > 0 {
            assert(c[1] == b[0]);
        }
    } else {
        assert(c.drop_first() =~= a.drop_first() + b);
        assert(a.drop_first()[0] == a[1]);
        if a[1].time == a[0].time {
            lemma_group_len_append(a.drop_first(), b);
        }
    }
}

/// The NoteOff events of a sequence, in their original relative order.
pub open spec fn offs_of(s: Seq<RawEvent>) -> Seq<RawEvent>
    decreases s.len(),
{
    if s.len() == 0 {
        Seq::empty()
    } else if s.last().kind is NoteOff {
        offs_of(s.drop_last()).push(s.last())
    } else {
        offs_of(s.drop_last())
    }
}

/// The NoteOn events of a sequence, in their original relative order.
pub open spec fn ons_of(s: Seq<RawEvent>) -> Seq<RawEvent>
    decreases s.len(),
{
    if s.len() == 0 {
        Seq::empty()
    } else if s.last().kind is NoteOn {
        ons_of(s.drop_last()).push(s.last())
    } else {
        ons_of(s.drop_last())
    }
}

/// The two filters partition a sequence: kinds are as filtered, every element
/// comes from the sequence, and the lengths add up.
pub proof fn lemma_filters_membership(s: Seq<RawEvent>)
    ensures
        offs_of(s).len() + ons_of(s).len() == s.len(),
        forall|i: int|
            0 <= i < offs_of(s).len() ==> (#[trigger] offs_of(s)[i]).kind is NoteOff && s.contains(
                offs_of(s)[i],
            ),
        forall|i: int|
            0 <= i < ons_of(s).len() ==> (#[trigger] ons_of(s)[i]).kind is NoteOn && s.contains(
                ons_of(s)[i],
            ),
    decreases s.len(),
{
    if s.len() > 0 {
        let d = s.drop_last();
        lemma_filters_membership(d);
        assert(s[s.len() - 1] == s.last());
        assert forall|i: int|
            0 <= i < offs_of(s).len() implies (#[trigger] offs_of(s)[i]).kind is NoteOff
            && s.contains(offs_of(s)[i]) by {
            if i < offs_of(d).len() {
                assert(offs_of(s)[i] == offs_of(d)[i]);
                let j = choose|j: int| 0 <= j < d.len() && d[j] == offs_of(d)[i];
                assert(s[j] == offs_of(d)[i]);
            } else {
                assert(offs_of(s)[i] == s.last());
            }
        }
        assert forall|i: int|
            0 <= i < ons_of(s).len() implies (#[trigger] ons_of(s)[i]).kind is NoteOn && s.contains(
            ons_of(s)[i],
        ) by {
            if i < ons_of(d).len() {
                assert(ons_of(s)[i] == ons_of(d)[i]);
                let j = choose|j: int| 0 <= j < d.len() && d[j] == ons_of(d)[i];
                assert(s[j] == ons_of(d)[i]);
            } else {
                assert(ons_of(s)[i] == s.last());
            }
        }
    }
}

/// The order in which a due batch is handed out: time groups in ascending
/// order, and inside each group the NoteOff events before the NoteOn events,
/// each side keeping its original relative order.
pub open spec fn tie_reorder(s: Seq<RawEvent>) -> Seq<RawEvent>
    decreases s.len(),
    via tie_reorder_decreases
{
    if s.len() == 0 {
        Seq::empty()
    } else {
        let g = group_len(s);
        offs_of(s.take(g)) + ons_of(s.take(g)) + tie_reorder(s.skip(g))
    }
}

#[via_fn]
proof fn tie_reorder_decreases(s: Seq<RawEvent>) {
    if s.len() > 0 {
        lemma_group_len(s);
    }
}

pub proof fn lemma_tie_reorder_len(s: Seq<RawEvent>)
    ensures
        tie_reorder(s).len() == s.len(),
    decreases s.len(),
{
    if s.len() > 0 {
        let g = group_len(s);
        lemma_group_len(s);
        lemma_filters_membership(s.take(g));
        lemma_tie_reorder_len(s.skip(g));
    }
}

/// Every event of a reordered batch comes from the underlying sequence.
pub proof fn lemma_tie_reorder_membership(s: Seq<RawEvent>)
    ensures
        forall|i: int|
            0 <= i < tie_reorder(s).len() ==> s.contains(#[trigger] tie_reorder(s)[i]),
    decreases s.len(),
{
    if s.len() > 0 {
        let g = group_len(s);
        lemma_group_len(s);
        let head = s.take(g);
        let tail = s.skip(g);
        lemma_filters_membership(head);
        lemma_tie_reorder_membership(tail);
        assert forall|i: int|
            0 <= i < tie_reorder(s).len() implies s.contains(#[trigger] tie_reorder(s)[i]) by {
            let a = offs_of(head);
            let b = ons_of(head);
            let c = tie_reorder(tail);
            let e = tie_reorder(s)[i];
            if i < a.len() {
                assert(e == a[i]);
                let j = choose|j: int| 0 <= j < head.len() && head[j] == e;
                assert(s[j] == e);
            } else if i < a.len() + b.len() {
                assert(e == b[i - a.len()]);
                let j = choose|j: int| 0 <= j < head.len() && head[j] == e;
                assert(s[j] == e);
            } else {
                assert(e == c[i - a.len() - b.len()]);
                assert(tail.contains(e));
                let j = choose|j: int| 0 <= j < tail.len() && tail[j] == e;
                assert(s[g + j] == e);
            }
        }
    }
}

/// Extending a reordered prefix by one complete, strictly later time group
/// appends that group's NoteOffs and then its NoteOns.
pub proof fn lemma_tie_reorder_extend(a: Seq<RawEvent>, g: Seq<RawEvent>)
    requires
        g.len() > 0,
        forall|i: int| 0 <= i < g.len() ==> (#[trigger] g[i]).time == g[0].time,
        forall|i: int| 0 <= i < a.len() ==> (#[trigger] a[i]).time < g[0].time,
    ensures
        tie_reorder(a + g) == tie_reorder(a) + offs_of(g) + ons_of(g),
    decreases a.len(),
{
    if a.len() == 0 {
        assert(a + g =~= g);
        lemma_group_len_all_equal(g);
        assert(g.take(g.len() as int) =~= g);
        assert(g.skip(g.len() as int) =~= Seq::<RawEvent>::empty());
        assert(tie_reorder(g) == offs_of(g) + ons_of(g) + tie_reorder(Seq::<RawEvent>::empty()));
        assert(offs_of(g) + ons_of(g) + tie_reorder(Seq::<RawEvent>::empty()) =~= offs_of(g)
            + ons_of(g));
        assert(tie_reorder(a) + offs_of(g) + ons_of(g) =~= offs_of(g) + ons_of(g));
    } else {
        let k = group_len(a);
        lemma_group_len(a);
        lemma_group_len_append(a, g);
        assert((a + g).take(k) =~= a.take(k));
        assert((a + g).skip(k) =~= a.skip(k) + g);
        assert(forall|i: int| 0 <= i < a.skip(k).len() ==> a.skip(k)[i] == a[k + i]);
        lemma_tie_reorder_extend(a.skip(k), g);
        assert(tie_reorder(a + g) == offs_of(a.take(k)) + ons_of(a.take(k)) + (tie_reorder(
            a.skip(k),
        ) + offs_of(g) + ons_of(g)));
        assert(tie_reorder(a + g) =~= tie_reorder(a) + offs_of(g) + ons_of(g));
    }
}

/// Dispatch precedence: strictly earlier time first; at equal times a NoteOff
/// may precede anything and a NoteOn may follow anything.
pub open spec fn dispatch_le(a: RawEvent, b: RawEvent) -> bool {
    a.time < b.time || (a.time == b.time && (a.kind is NoteOff || b.kind is NoteOn))
}

/// A batch is dispatch-ordered: ascending times, NoteOff before NoteOn at
/// equal times.
pub open spec fn dispatch_ordered(s: Seq<RawEvent>) -> bool {
    forall|i: int, j: int| 0 <= i < j < s.len() ==> dispatch_le(s[i], s[j])
}

/// Every batch cut from a time-sorted sequence and reordered is
/// dispatch-ordered.
pub proof fn lemma_tie_reorder_ordered(s: Seq<RawEvent>)
    requires
        time_sorted(s),
    ensures
        dispatch_ordered(tie_reorder(s)),
    decreases s.len(),
{
    if s.len() > 0 {
        let g = group_len(s);
        lemma_group_len(s);
        let head = s.take(g);
        let tail = s.skip(g);
        assert(forall|i: int| 0 <= i < head.len() ==> head[i] == s[i]);
        assert(forall|i: int| 0 <= i < tail.len() ==> tail[i] == s[g + i]);
        lemma_filters_membership(head);
        lemma_tie_reorder_membership(tail);
        lemma_tie_reorder_ordered(tail);
        let a = offs_of(head);
        let b = ons_of(head);
        let c = tie_reorder(tail);
        let r = tie_reorder(s);
        // every event of the head group lies at the group time; every event of
        // the reordered tail lies strictly later
        assert forall|i: int| 0 <= i < a.len() implies a[i].time == s[0].time by {
            let j = choose|j: int| 0 <= j < head.len() && head[j] == a[i];
        }
        assert forall|i: int| 0 <= i < b.len() implies b[i].time == s[0].time by {
            let j = choose|j: int| 0 <= j < head.len() && head[j] == b[i];
        }
        assert forall|i: int| 0 <= i < c.len() implies c[i].time > s[0].time by {
            let j = choose|j: int| 0 <= j < tail.len() && tail[j] == c[i];
            if g < s.len() {
                assert(s[g].time >= s[0].time);
                assert(s[g].time != s[0].time);
                assert(s[g + j].time >= s[g].time);
            }
        }
        assert forall|i: int, j: int| 0 <= i < j < r.len() implies dispatch_le(r[i], r[j]) by {
            if i < a.len() {
                assert(r[i] == a[i]);
            } else if i < a.len() + b.len() {
                assert(r[i] == b[i - a.len()]);
            } else {
                assert(r[i] == c[i - a.len() - b.len()]);
            }
            if j < a.len() {
                assert(r[j] == a[j]);
            } else if j < a.len() + b.len() {
                assert(r[j] == b[j - a.len()]);
            } else {
                assert(r[j] == c[j - a.len() - b.len()]);
            }
        }
    }
}

/// Reordering distributes over a split that does not divide a time group:
/// dispatching a range in two batches hands out exactly the events of the
/// whole range, each once, in the same order.
pub proof fn lemma_tie_reorder_concat(a: Seq<RawEvent>, b: Seq<RawEvent>)
    requires
        time_sorted(a),
        forall|i: int, j: int|
            0 <= i < a.len() && 0 <= j < b.len() ==> (#[trigger] a[i]).time < (#[trigger] b[
                j
            ]).time,
    ensures
        tie_reorder(a + b) == tie_reorder(a) + tie_reorder(b),
    decreases a.len(),
{
    if a.len() == 0 {
        assert(a + b =~= b);
        assert(tie_reorder(a) + tie_reorder(b) =~= tie_reorder(b));
    } else if b.len() == 0 {
        assert(a + b =~= a);
        assert(tie_reorder(a) + tie_reorder(b) =~= tie_reorder(a));
    } else {
        let k = group_len(a);
        lemma_group_len(a);
        lemma_group_len_append(a, b);
        assert((a + b).take(k) =~= a.take(k));
        assert((a + b).skip(k) =~= a.skip(k) + b);
        assert(forall|i: int| 0 <= i < a.skip(k).len() ==> a.skip(k)[i] == a[k + i]);
        assert forall|i: int, j: int|
            0 <= i <= j < a.skip(k).len() implies (#[trigger] a.skip(k)[i]).time <= (#[trigger] a.skip(
            k,
        )[j]).time by {
            assert(a[k + i].time <= a[k + j].time);
        }
        lemma_tie_reorder_concat(a.skip(k), b);
        assert(tie_reorder(a + b) == offs_of(a.take(k)) + ons_of(a.take(k)) + (tie_reorder(
            a.skip(k),
        ) + tie_reorder(b)));
        assert(tie_reorder(a + b) =~= tie_reorder(a) + tie_reorder(b));
    }
}

/// Monotonic dispatch: two successive due batches, cut at indices that never
/// split a time group, concatenate to exactly one batch over the whole range.
/// No event is handed out twice and none is lost; with the ordering lemma,
/// each batch is also individually dispatch-ordered.
pub proof fn lemma_monotonic_dispatch(s: Seq<RawEvent>, i0: int, i1: int, i2: int)
    requires
        time_sorted(s),
        0 <= i0 <= i1 <= i2 <= s.len(),
        i1 == i0 || i1 == i2 || s[i1 - 1].time < s[i1].time,
    ensures
        tie_reorder(s.subrange(i0, i1)) + tie_reorder(s.subrange(i1, i2)) == tie_reorder(
            s.subrange(i0, i2),
        ),
{
    let a = s.subrange(i0, i1);
    let b = s.subrange(i1, i2);
    if i1 == i0 {
        assert(a =~= Seq::<RawEvent>::empty());
        assert(b =~= s.subrange(i0, i2));
        assert(tie_reorder(a) + tie_reorder(b) =~= tie_reorder(b));
    } else if i1 == i2 {
        assert(b =~= Seq::<RawEvent>::empty());
        assert(a =~= s.subrange(i0, i2));
        assert(tie_reorder(a) + tie_reorder(b) =~= tie_reorder(a));
    } else {
        assert forall|i: int, j: int|
            0 <= i < a.len() && 0 <= j < b.len() implies (#[trigger] a[i]).time < (#[trigger] b[
            j
        ]).time by {
            assert(a[i] == s[i0 + i]);
            assert(b[j] == s[i1 + j]);
            assert(s[i0 + i].time <= s[i1 - 1].time);
            assert(s[i1].time <= s[i1 + j].time);
        }
        lemma_tie_reorder_concat(a, b);
        assert(a + b =~= s.subrange(i0, i2));
    }
}

/// Whether key `k` stands open after the prefix `p` of dispatched events: the
/// last event for `k`, in supplied order, is a NoteOn.
pub open spec fn prefix_holds_open(p: Seq<RawEvent>, k: u8) -> bool
    decreases p.len(),
{
    if p.len() == 0 {
        false
    } else if p.last().key == k {
        p.last().kind is NoteOn
    } else {
        prefix_holds_open(p.drop_last(), k)
    }
}

/// Key `k` is open at time `t`: among the events due at `t` (the half-open
/// semantics make an event due exactly when its time is at most `t`), the
/// last one governing `k` is a NoteOn — its NoteOff lies strictly after `t`.
pub open spec fn open_at(s: Seq<RawEvent>, t: u64, k: u8) -> bool {
    prefix_holds_open(s.take(cut(s, t)), k)
}

/// Key `k` is required once the cursor stands at `idx`: some NoteOn at the
/// next due instant (the time of the first pending event) plays `k`.
pub open spec fn required_at(s: Seq<RawEvent>, idx: int, k: u8) -> bool {
    idx < s.len() && exists|i: int|
        idx <= i < s.len() && (#[trigger] s[i]).time == s[idx].time && s[i].kind is NoteOn && s[i].key == k
}

} // verus!
