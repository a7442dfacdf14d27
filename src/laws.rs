//! Properties of the ledger that relate several operations.
use vstd::prelude::*;
use crate::ledger::{
    after_start, clamp_to_open, close_at, close_open, counts, has_counted, has_name, is_open,
    latest_clear, latest_open, open_count, total_of, ClearMarker, IntervalView,
};

verus! {

/// No interval is open exactly when the open count is zero.
pub proof fn lemma_none_open(s: Seq<IntervalView>)
    ensures
        open_count(s) == 0 <==> forall|i: int| 0 <= i < s.len() ==> !is_open(#[trigger] s[i]),
    decreases s.len(),
{
    if s.len() > 0 {
        lemma_none_open(s.drop_last());
        if open_count(s) == 0 {
            assert forall|i: int| 0 <= i < s.len() implies !is_open(#[trigger] s[i]) by {
                if i < s.len() - 1 {
                    assert(s[i] == s.drop_last()[i]);
                }
            }
        }
        if forall|i: int| 0 <= i < s.len() ==> !is_open(#[trigger] s[i]) {
            assert forall|i: int| 0 <= i < s.drop_last().len() implies !is_open(#[trigger] s.drop_last()[i]) by {
                assert(s[i] == s.drop_last()[i]);
            }
            assert(!is_open(s[s.len() - 1]));
        }
    }
}

/// With exactly one interval open, at position `i`, it is the running one
/// and every other interval is closed.
pub proof fn lemma_single_open(s: Seq<IntervalView>, i: int)
    requires
        open_count(s) == 1,
        0 <= i < s.len(),
        is_open(s[i]),
    ensures
        latest_open(s) == Some(s[i]),
        forall|k: int| 0 <= k < s.len() && k != i ==> !is_open(#[trigger] s[k]),
    decreases s.len(),
{
    let p = s.drop_last();
    if i == s.len() - 1 {
        assert(open_count(p) == 0);
        lemma_none_open(p);
        lemma_latest_open_none(p);
        assert forall|k: int| 0 <= k < s.len() && k != i implies !is_open(#[trigger] s[k]) by {
            assert(s[k] == p[k]);
        }
    } else {
        assert(p[i] == s[i]);
        lemma_open_count_pos(p, i);
        assert(!is_open(s.last()));
        lemma_single_open(p, i);
        assert forall|k: int| 0 <= k < s.len() && k != i implies !is_open(#[trigger] s[k]) by {
            if k < s.len() - 1 {
                assert(s[k] == p[k]);
            }
        }
    }
}

proof fn lemma_open_count_pos(s: Seq<IntervalView>, i: int)
    requires
        0 <= i < s.len(),
        is_open(s[i]),
    ensures
        open_count(s) >= 1,
{
    if open_count(s) == 0 {
        lemma_none_open(s);
    }
}

proof fn lemma_latest_open_none(s: Seq<IntervalView>)
    requires
        open_count(s) == 0,
    ensures
        latest_open(s) is None,
    decreases s.len(),
{
    if s.len() > 0 {
        lemma_latest_open_none(s.drop_last());
    }
}

/// Every start leaves exactly one interval open, the new one, and every stop
/// leaves none: after any sequence of starts and stops at most one interval
/// is open.
pub proof fn start_stop_keep_one_open(s: Seq<IntervalView>, id: u64, name: Seq<char>, requested: int, t: i64)
    ensures
        open_count(after_start(s, id, name, requested)) == 1,
        is_open(after_start(s, id, name, requested).last()),
        open_count(close_open(s, t)) == 0,
{
    let c = clamp_to_open(s, requested) as i64;
    let r = after_start(s, id, name, requested);
    crate::ledger::lemma_close_open_none_open(s, c);
    crate::ledger::lemma_close_open_none_open(s, t);
    assert(r.drop_last() =~= close_open(s, c));
}

/// A stop requested before the start of the running interval ends it at its
/// start, and a stop never ends the running interval before its start.
pub proof fn stop_clamps_to_start(s: Seq<IntervalView>, requested: int, i: int)
    requires
        0 <= i < s.len(),
        latest_open(s) == Some(s[i]),
        i64::MIN <= requested <= i64::MAX,
    ensures
        requested < s[i].start_time ==> close_open(s, clamp_to_open(s, requested) as i64)[i].end_time
            == Some(s[i].start_time),
        close_open(s, clamp_to_open(s, requested) as i64)[i].end_time->Some_0 >= s[i].start_time,
        close_open(s, clamp_to_open(s, requested) as i64)[i].start_time == s[i].start_time,
{
    lemma_latest_open_is_open(s);
}

proof fn lemma_latest_open_is_open(s: Seq<IntervalView>)
    ensures
        latest_open(s) is Some ==> is_open(latest_open(s)->Some_0),
    decreases s.len(),
{
    if s.len() > 0 {
        lemma_latest_open_is_open(s.drop_last());
    }
}

/// Starting `name` while exactly one interval (at `i`) is open closes that
/// interval where the new one starts, opens the new one, and leaves every
/// other interval as it was.
pub proof fn start_closes_previous(s: Seq<IntervalView>, i: int, id: u64, name: Seq<char>, requested: int)
    requires
        open_count(s) == 1,
        0 <= i < s.len(),
        is_open(s[i]),
        i64::MIN <= requested <= i64::MAX,
    ensures
        ({
            let r = after_start(s, id, name, requested);
            &&& r.len() == s.len() + 1
            &&& r[i].name == s[i].name
            &&& r[i].start_time == s[i].start_time
            &&& r[i].end_time == Some(r.last().start_time)
            &&& r.last().name == name
            &&& r.last().end_time is None
            &&& requested >= s[i].start_time ==> r.last().start_time == requested
            &&& forall|k: int| 0 <= k < s.len() && k != i ==> r[k] == s[k]
            &&& open_count(r) == 1
        }),
{
    lemma_single_open(s, i);
    start_stop_keep_one_open(s, id, name, requested, 0);
    let r = after_start(s, id, name, requested);
    let c = clamp_to_open(s, requested) as i64;
    assert forall|k: int| 0 <= k < s.len() && k != i implies r[k] == s[k] by {
        assert(r[k] == close_at(s[k], c));
    }
}

/// Stopping with no interval open changes nothing, so a second stop in a row
/// changes nothing either.
pub proof fn stop_when_idle_is_no_op(s: Seq<IntervalView>, t: i64, t2: i64)
    ensures
        open_count(s) == 0 ==> close_open(s, t) == s,
        close_open(close_open(s, t), t2) == close_open(s, t),
{
    lemma_none_open(s);
    if open_count(s) == 0 {
        assert(close_open(s, t) =~= s);
    }
    crate::ledger::lemma_close_open_none_open(s, t);
    lemma_none_open(close_open(s, t));
    assert(close_open(close_open(s, t), t2) =~= close_open(s, t));
}

/// The latest marker is at least as late as any marker.
pub proof fn lemma_latest_clear_bound(c: Seq<ClearMarker>, k: int)
    requires
        0 <= k < c.len(),
    ensures
        latest_clear(c) is Some,
        latest_clear(c)->Some_0 >= c[k].time,
    decreases c.len(),
{
    if k < c.len() - 1 {
        lemma_latest_clear_bound(c.drop_last(), k);
    } else if c.len() > 1 {
        lemma_latest_clear_bound(c.drop_last(), 0);
    }
}

/// After a clear at `now` (the running interval ended at `t`, a marker
/// added), an interval counts toward the totals only if it starts at or
/// after `now`, while the names of all intervals stay listed.
pub proof fn clear_isolation(s: Seq<IntervalView>, c: Seq<ClearMarker>, id: u64, now: i64, t: i64)
    ensures
        ({
            let s2 = close_open(s, t);
            let c2 = c.push(ClearMarker { id, time: now });
            &&& forall|j: int| 0 <= j < s2.len() && counts(#[trigger] s2[j], latest_clear(c2)) ==> s2[j].start_time >= now
            &&& forall|n: Seq<char>, t2: int| (forall|j: int| 0 <= j < s2.len() ==> s2[j].start_time < now)
                ==> total_of(s2, n, latest_clear(c2), t2) == 0
            &&& forall|n: Seq<char>| has_name(s2, n) <==> has_name(s, n)
        }),
{
    let s2 = close_open(s, t);
    let c2 = c.push(ClearMarker { id, time: now });
    lemma_latest_clear_bound(c2, c.len() as int);
    assert forall|n: Seq<char>, t2: int| (forall|j: int| 0 <= j < s2.len() ==> s2[j].start_time < now)
        implies total_of(s2, n, latest_clear(c2), t2) == 0 by {
        if has_counted(s2, n, latest_clear(c2)) {
            let j = choose|j: int| 0 <= j < s2.len() && s2[j].name == n && counts(s2[j], latest_clear(c2));
        }
        crate::ledger::lemma_total_of_absent(s2, n, latest_clear(c2), t2);
    }
    assert forall|n: Seq<char>| has_name(s2, n) <==> has_name(s, n) by {
        if has_name(s, n) {
            let j = choose|j: int| 0 <= j < s.len() && s[j].name == n;
            assert(s2[j].name == n);
        }
        if has_name(s2, n) {
            let j = choose|j: int| 0 <= j < s2.len() && s2[j].name == n;
            assert(s[j].name == n);
        }
    }
}

/// With no interval stored, no name is listed and nothing is counted.
pub proof fn hard_clear_totality(since: Option<i64>, now: int)
    ensures
        forall|n: Seq<char>| !has_name(Seq::<IntervalView>::empty(), n),
        forall|n: Seq<char>| !has_counted(Seq::<IntervalView>::empty(), n, since),
        forall|n: Seq<char>| total_of(Seq::<IntervalView>::empty(), n, since, now) == 0,
{
}

} // verus!
