use vstd::prelude::*;

use std::collections::VecDeque;

use crate::TimerEvent;

verus! {

/// Pending timers: (absolute deadline in nanoseconds, kind), earliest first.
pub type Timers = VecDeque<(u64, TimerEvent)>;

/// Deadlines never decrease along the queue.
pub open spec fn timers_sorted(s: Seq<(u64, TimerEvent)>) -> bool {
    forall|i: int, j: int| 0 <= i < j < s.len() ==> #[trigger] s[i].0 <= #[trigger] s[j].0
}

/// No kind is pending twice.
pub open spec fn timers_unique(s: Seq<(u64, TimerEvent)>) -> bool {
    forall|i: int, j: int| 0 <= i < j < s.len() ==> #[trigger] s[i].1 != #[trigger] s[j].1
}

pub open spec fn timers_wf(s: Seq<(u64, TimerEvent)>) -> bool {
    timers_sorted(s) && timers_unique(s)
}

/// A timer of kind `k` is pending.
pub open spec fn pending(s: Seq<(u64, TimerEvent)>, k: TimerEvent) -> bool {
    exists|i: int| 0 <= i < s.len() && #[trigger] s[i].1 == k
}

/// The deadline of the pending timer of kind `k`, if any.
pub open spec fn deadline_of(s: Seq<(u64, TimerEvent)>, k: TimerEvent) -> Option<u64> {
    if pending(s, k) {
        Some(s[choose|i: int| 0 <= i < s.len() && #[trigger] s[i].1 == k].0)
    } else {
        None
    }
}

/// In a queue without duplicate kinds, an entry fixes the deadline of its kind.
pub proof fn lemma_deadline_at(s: Seq<(u64, TimerEvent)>, i: int)
    requires
        timers_unique(s),
        0 <= i < s.len(),
    ensures
        deadline_of(s, s[i].1) == Some(s[i].0),
{
    let j = choose|j: int| 0 <= j < s.len() && #[trigger] s[j].1 == s[i].1;
    if j != i {
        if j < i {
            assert(s[j].1 != s[i].1);
        } else {
            assert(s[i].1 != s[j].1);
        }
    }
}

/// Two queues without duplicate kinds that hold the same entries agree on every deadline.
pub proof fn lemma_same_entries(a: Seq<(u64, TimerEvent)>, b: Seq<(u64, TimerEvent)>, k: TimerEvent)
    requires
        timers_unique(a),
        timers_unique(b),
        forall|e: (u64, TimerEvent)| e.1 == k ==> (a.contains(e) <==> b.contains(e)),
    ensures
        deadline_of(a, k) == deadline_of(b, k),
{
    if pending(a, k) {
        let i = choose|i: int| 0 <= i < a.len() && #[trigger] a[i].1 == k;
        lemma_deadline_at(a, i);
        assert(a.contains(a[i]));
        let j = choose|j: int| 0 <= j < b.len() && b[j] == a[i];
        lemma_deadline_at(b, j);
    } else if pending(b, k) {
        let j = choose|j: int| 0 <= j < b.len() && #[trigger] b[j].1 == k;
        assert(b.contains(b[j]));
        let i = choose|i: int| 0 <= i < a.len() && a[i] == b[j];
        assert(a[i].1 == k);
    }
}

/// The entries of every kind but `kind`.
pub open spec fn other_kinds(kind: TimerEvent) -> spec_fn((u64, TimerEvent)) -> bool {
    |e: (u64, TimerEvent)| e.1 != kind
}

proof fn lemma_filter_keeps_all(t: Seq<(u64, TimerEvent)>, kind: TimerEvent)
    requires
        forall|j: int| 0 <= j < t.len() ==> (#[trigger] t[j]).1 != kind,
    ensures
        t.filter(other_kinds(kind)) == t,
    decreases t.len(),
{
    if t.len() > 0 {
        lemma_filter_keeps_all(t.drop_last(), kind);
        assert(t.drop_last().push(t.last()) =~= t);
        t.drop_last().lemma_filter_push(t.last(), other_kinds(kind));
    }
}

/// Removing or inserting an entry of kind `kind` at `i` leaves the other kinds in order.
proof fn lemma_filter_splice(s: Seq<(u64, TimerEvent)>, i: int, e: (u64, TimerEvent), kind: TimerEvent)
    requires
        0 <= i <= s.len(),
        e.1 == kind,
    ensures
        s.insert(i, e).filter(other_kinds(kind)) == s.filter(other_kinds(kind)),
{
    let p = other_kinds(kind);
    let a = s.take(i);
    let b = s.skip(i);
    assert(s =~= a + b);
    assert(s.insert(i, e) =~= (a + seq![e]) + b);
    Seq::filter_distributes_over_add(a, b, p);
    Seq::filter_distributes_over_add(a + seq![e], b, p);
    Seq::filter_distributes_over_add(a, seq![e], p);
    Seq::<(u64, TimerEvent)>::empty().lemma_filter_push(e, p);
    assert(Seq::<(u64, TimerEvent)>::empty().push(e) =~= seq![e]);
    assert(Seq::<(u64, TimerEvent)>::empty().filter(p) =~= Seq::<(u64, TimerEvent)>::empty());
    assert(a + Seq::<(u64, TimerEvent)>::empty() =~= a);
}

proof fn lemma_clear_filter(s: Seq<(u64, TimerEvent)>, i: int, kind: TimerEvent)
    requires
        timers_unique(s),
        0 <= i < s.len(),
        s[i].1 == kind,
    ensures
        s.remove(i) == s.filter(other_kinds(kind)),
{
    let t = s.remove(i);
    assert(t.insert(i, s[i]) =~= s);
    lemma_filter_splice(t, i, s[i], kind);
    assert forall|j: int| 0 <= j < t.len() implies (#[trigger] t[j]).1 != kind by {
        let j2 = if j < i { j } else { j + 1 };
        assert(t[j] == s[j2]);
        if j2 < i {
            assert(s[j2].1 != s[i].1);
        } else {
            assert(s[i].1 != s[j2].1);
        }
    }
    lemma_filter_keeps_all(t, kind);
}

proof fn lemma_set_filter(s0: Seq<(u64, TimerEvent)>, s: Seq<(u64, TimerEvent)>, idx: int, d: u64, kind: TimerEvent)
    requires
        s == s0.filter(other_kinds(kind)),
        0 <= idx <= s.len(),
    ensures
        s.insert(idx, (d, kind)).filter(other_kinds(kind)) == s0.filter(other_kinds(kind)),
{
    lemma_filter_splice(s, idx, (d, kind), kind);
    assert forall|j: int| 0 <= j < s.len() implies (#[trigger] s[j]).1 != kind by {
        s0.lemma_filter_pred(other_kinds(kind), j);
    }
    lemma_filter_keeps_all(s, kind);
}

/// Removes the pending timer of kind `kind`, if any.
pub fn clear_timer(timers: &mut Timers, kind: TimerEvent)
    requires
        timers_wf(old(timers)@),
    ensures
        timers_wf(final(timers)@),
        final(timers)@.len() <= old(timers)@.len(),
        final(timers)@ == old(timers)@.filter(other_kinds(kind)),
        forall|e: (u64, TimerEvent)| final(timers)@.contains(e) <==> (old(timers)@.contains(e) && e.1 != kind),
        deadline_of(final(timers)@, kind) is None,
        forall|k: TimerEvent| k != kind ==> deadline_of(final(timers)@, k) == deadline_of(old(timers)@, k),
{
    let ghost s = timers@;
    let mut i: usize = 0;
    while i < timers.len()
        invariant
            timers@ == s,
            s == old(timers)@,
            timers_wf(s),
            0 <= i <= s.len(),
            forall|j: int| 0 <= j < i ==> (#[trigger] s[j]).1 != kind,
        decreases s.len() - i,
    {
        if timers[i].1 == kind {
            assert(s[i as int].1 == kind);
            timers.remove(i);
            let ghost t = timers@;
            assert(t =~= s.remove(i as int));
            proof {
                lemma_clear_filter(s, i as int, kind);
            }
            assert forall|a: int, b: int| 0 <= a < b < t.len() implies #[trigger] t[a].0 <= #[trigger] t[b].0 && t[a].1 != t[b].1 by {
                let a2 = if a < i { a } else { a + 1 };
                let b2 = if b < i { b } else { b + 1 };
                assert(s[a2].0 <= s[b2].0);
                assert(s[a2].1 != s[b2].1);
            }
            assert forall|e: (u64, TimerEvent)| t.contains(e) <==> (s.contains(e) && e.1 != kind) by {
                if t.contains(e) {
                    let j = choose|j: int| 0 <= j < t.len() && t[j] == e;
                    if j < i {
                        assert(s[j] == e);
                    } else {
                        assert(s[j + 1] == e);
                        assert(s[i as int].1 != s[j + 1].1);
                    }
                }
                if s.contains(e) && e.1 != kind {
                    let j = choose|j: int| 0 <= j < s.len() && s[j] == e;
                    if j < i {
                        assert(t[j] == e);
                    } else {
                        assert(j != i);
                        assert(t[j - 1] == e);
                    }
                }
            }
            assert(!pending(t, kind)) by {
                if pending(t, kind) {
                    let j = choose|j: int| 0 <= j < t.len() && #[trigger] t[j].1 == kind;
                    assert(t.contains(t[j]));
                }
            }
            assert forall|k: TimerEvent| k != kind implies deadline_of(t, k) == deadline_of(s, k) by {
                lemma_same_entries(t, s, k);
            }
            return;
        }
        i = i + 1;
    }
    assert(!pending(s, kind));
    proof {
        lemma_filter_keeps_all(s, kind);
    }
}

/// Arms the timer of kind `kind` for `deadline`, replacing a pending one of that kind.
/// It goes after every entry whose deadline is not later, so equal deadlines keep
/// the order in which they were set.
pub fn set_timer(timers: &mut Timers, kind: TimerEvent, deadline: u64)
    requires
        timers_wf(old(timers)@),
    ensures
        timers_wf(final(timers)@),
        final(timers)@.len() <= old(timers)@.len() + 1,
        final(timers)@.filter(other_kinds(kind)) == old(timers)@.filter(other_kinds(kind)),
        forall|e: (u64, TimerEvent)| final(timers)@.contains(e) <==> ((old(timers)@.contains(e) && e.1 != kind) || e == (deadline, kind)),
        deadline_of(final(timers)@, kind) == Some(deadline),
        forall|k: TimerEvent| k != kind ==> deadline_of(final(timers)@, k) == deadline_of(old(timers)@, k),
{
    let ghost s0 = timers@;
    clear_timer(timers, kind);
    let ghost s = timers@;
    let mut idx: usize = 0;
    while idx < timers.len() && timers[idx].0 <= deadline
        invariant
            timers@ == s,
            timers_wf(s),
            timers_wf(s0),
            s0 == old(timers)@,
            s.len() <= s0.len(),
            forall|e: (u64, TimerEvent)| s.contains(e) <==> (s0.contains(e) && e.1 != kind),
            forall|k: TimerEvent| k != kind ==> deadline_of(s, k) == deadline_of(s0, k),
            s == s0.filter(other_kinds(kind)),
            0 <= idx <= s.len(),
            forall|j: int| 0 <= j < idx ==> (#[trigger] s[j]).0 <= deadline,
        decreases s.len() - idx,
    {
        idx = idx + 1;
    }
    timers.insert(idx, (deadline, kind));
    let ghost t = timers@;
    proof {
        lemma_set_filter(s0, s, idx as int, deadline, kind);
    }
    assert(t[idx as int] == (deadline, kind));
    assert forall|i: int, j: int| 0 <= i < j < t.len() implies #[trigger] t[i].0 <= #[trigger] t[j].0 by {
        if j < idx {
        } else if j == idx {
        } else if i < idx {
        } else if i == idx {
            assert(s[j - 1].0 > deadline || j - 1 == idx);
            if j - 1 > idx {
                assert(s[idx as int].0 <= s[j - 1].0);
            }
        } else {
        }
    }
    assert forall|i: int, j: int| 0 <= i < j < t.len() implies #[trigger] t[i].1 != #[trigger] t[j].1 by {
        if i == idx {
            let e = t[j];
            assert(s.contains(e));
        } else if j == idx {
            let e = t[i];
            assert(s.contains(e));
        }
    }
    assert forall|e: (u64, TimerEvent)| t.contains(e) <==> ((s0.contains(e) && e.1 != kind) || e == (deadline, kind)) by {
        if t.contains(e) && e != (deadline, kind) {
            let j = choose|j: int| 0 <= j < t.len() && t[j] == e;
            if j < idx {
                assert(s[j] == e);
            } else {
                assert(s[j - 1] == e);
            }
        }
        if s.contains(e) {
            let j = choose|j: int| 0 <= j < s.len() && s[j] == e;
            if j < idx {
                assert(t[j] == e);
            } else {
                assert(t[j + 1] == e);
            }
        }
    }
    proof {
        lemma_deadline_at(t, idx as int);
        assert forall|k: TimerEvent| k != kind implies deadline_of(t, k) == deadline_of(s0, k) by {
            lemma_same_entries(t, s, k);
        }
    }
}

} // verus!
