//! What the recorder holds after any number of events, and what a diagnosis makes
//! of it.

use crate::ranking::{is_ranked, is_ranking, is_reordered, precedes, ranking_keeps_items};
use crate::telemetry::{
    counted_in_all, counts, diagnosis_counts_failures, event_key, event_views, failed_latest_first,
    failure_pairs, failures, failures_under, lemma_failures_bound, lemma_pair_place, no_counts,
    pair_keys, pair_place, recorded, ring_push, Counter, Event, EventView, PairView, Telemetry,
    MAX_EVENTS,
};
use vstd::prelude::*;

verus! {

/// The last `max` of `s`.
pub open spec fn newest<T>(s: Seq<T>, max: nat) -> Seq<T> {
    if s.len() <= max {
        s
    } else {
        s.skip(s.len() - max)
    }
}

/// The counter of `key` after the events.
pub open spec fn counter_of(events: Seq<EventView>, key: Seq<char>) -> Counter
    decreases events.len(),
{
    if events.len() == 0 {
        no_counts()
    } else {
        let before = counter_of(events.drop_last(), key);
        let e = events.last();
        if event_key(e) == key {
            before.counted(e.ok, e.latency_ms)
        } else {
            before
        }
    }
}

/// How many events under `key` came out as `ok` says.
pub open spec fn outcomes(events: Seq<EventView>, key: Seq<char>, ok: bool) -> nat
    decreases events.len(),
{
    if events.len() == 0 {
        0
    } else {
        outcomes(events.drop_last(), key, ok) + if event_key(events.last()) == key
            && events.last().ok == ok {
            1nat
        } else {
            0nat
        }
    }
}

/// The latencies of the events under `key` together.
pub open spec fn latencies(events: Seq<EventView>, key: Seq<char>) -> nat
    decreases events.len(),
{
    if events.len() == 0 {
        0
    } else {
        latencies(events.drop_last(), key) + if event_key(events.last()) == key {
            events.last().latency_ms as nat
        } else {
            0nat
        }
    }
}

/// Some event is under `key`.
pub open spec fn occurs(events: Seq<EventView>, key: Seq<char>) -> bool {
    exists|i: int| 0 <= i < events.len() && event_key(#[trigger] events[i]) == key
}

/// `states` are a recorder that is on, from its beginning, before and after each
/// of the events.
pub open spec fn is_history(states: Seq<Telemetry>, events: Seq<Event>) -> bool {
    &&& states.len() == events.len() + 1
    &&& states[0].enabled
    &&& states[0].events@.len() == 0
    &&& states[0].total == 0
    &&& states[0].counters@.len() == 0
    &&& forall|k: int| 0 <= k < states.len() ==> (#[trigger] states[k]).valid()
    &&& forall|k: int|
        0 <= k < events.len() ==> recorded(states[k], #[trigger] events[k], states[k + 1])
}

proof fn lemma_occurs_push(events: Seq<EventView>, key: Seq<char>)
    requires
        events.len() > 0,
    ensures
        occurs(events, key) <==> occurs(events.drop_last(), key) || event_key(events.last()) == key,
{
    let fewer = events.drop_last();
    if occurs(fewer, key) {
        let i = choose|i: int| 0 <= i < fewer.len() && event_key(#[trigger] fewer[i]) == key;
        assert(event_key(events[i]) == key);
    }
    if event_key(events.last()) == key {
        assert(event_key(events[events.len() - 1]) == key);
    }
    if occurs(events, key) {
        let i = choose|i: int| 0 <= i < events.len() && event_key(#[trigger] events[i]) == key;
        if i < fewer.len() {
            assert(event_key(fewer[i]) == key);
        }
    }
}

proof fn lemma_nothing_counted(events: Seq<EventView>, key: Seq<char>)
    requires
        !occurs(events, key),
    ensures
        counter_of(events, key) == no_counts(),
    decreases events.len(),
{
    if events.len() > 0 {
        lemma_occurs_push(events, key);
        lemma_nothing_counted(events.drop_last(), key);
    }
}

proof fn lemma_newest_push<T>(s: Seq<T>, max: nat)
    requires
        s.len() > 0,
        max > 0,
    ensures
        newest(s, max) == ring_push(newest(s.drop_last(), max), s.last(), max),
{
    assert(newest(s, max) =~= ring_push(newest(s.drop_last(), max), s.last(), max));
}

/// After any number of events the recorder holds the newest of them in their
/// order, has counted all of them, and has a counter for exactly the keys that
/// occurred, which counted the events under its key and no others.
pub proof fn recorder_holds_its_history(states: Seq<Telemetry>, events: Seq<Event>)
    requires
        is_history(states, events),
        events.len() <= u64::MAX,
    ensures
        states.last().enabled,
        states.last().events@ == newest(events, MAX_EVENTS as nat),
        states.last().log() == newest(event_views(events), MAX_EVENTS as nat),
        states.last().total == events.len(),
        counted_in_all(states.last().counters@) == events.len(),
        forall|key: Seq<char>| #[trigger]
            counts(states.last().counters@).dom().contains(key) <==> occurs(
                event_views(events),
                key,
            ),
        forall|key: Seq<char>| #[trigger]
            counts(states.last().counters@).dom().contains(key) ==> counts(
                states.last().counters@,
            )[key] == counter_of(event_views(events), key),
    decreases events.len(),
{
    let t = states.last();
    let views = event_views(events);
    if events.len() > 0 {
        let fewer = events.drop_last();
        let earlier = states.drop_last();
        assert forall|k: int| 0 <= k < earlier.len() implies (#[trigger] earlier[k]).valid() by {
            assert(states[k].valid());
        }
        assert forall|k: int| 0 <= k < fewer.len() implies recorded(
            earlier[k],
            #[trigger] fewer[k],
            earlier[k + 1],
        ) by {
            assert(events[k] == fewer[k]);
        }
        recorder_holds_its_history(earlier, fewer);
        let n = events.len() - 1;
        let e = events[n];
        assert(recorded(states[n], e, states[n + 1]));
        assert(earlier.last() == states[n]);
        lemma_newest_push(events, MAX_EVENTS as nat);
        assert(views.drop_last() =~= event_views(fewer));
        assert(views.last() == e@);
        let known = counts(states[n].counters@);
        assert forall|key: Seq<char>| #[trigger]
            counts(t.counters@).dom().contains(key) <==> occurs(views, key) by {
            lemma_occurs_push(views, key);
            assert(known.dom().contains(key) <==> occurs(event_views(fewer), key));
        }
        assert forall|key: Seq<char>| #[trigger]
            counts(t.counters@).dom().contains(key) implies counts(t.counters@)[key] == counter_of(
            views,
            key,
        ) by {
            lemma_occurs_push(views, key);
            if !known.dom().contains(key) {
                lemma_nothing_counted(event_views(fewer), key);
            }
        }
    }
    assert(t.valid());
    assert(t.log() =~= newest(views, MAX_EVENTS as nat));
}

/// A counter adds up: it counts its successes and its failures, together all of its
/// events; no event is faster than its least latency or slower than its greatest;
/// and as many of the one and of the other bound the sum.
pub proof fn counters_add_up(events: Seq<EventView>, key: Seq<char>)
    requires
        events.len() <= u64::MAX,
        latencies(events, key) <= u64::MAX,
    ensures
        counter_of(events, key).ok == outcomes(events, key, true),
        counter_of(events, key).err == outcomes(events, key, false),
        counter_of(events, key).total == counter_of(events, key).ok + counter_of(events, key).err,
        counter_of(events, key).total <= events.len(),
        counter_of(events, key).latency_sum_ms == latencies(events, key),
        counter_of(events, key).latency_min_ms <= counter_of(events, key).latency_max_ms,
        counter_of(events, key).total * counter_of(events, key).latency_min_ms <= counter_of(
            events,
            key,
        ).latency_sum_ms,
        counter_of(events, key).latency_sum_ms <= counter_of(events, key).total * counter_of(
            events,
            key,
        ).latency_max_ms,
        forall|i: int|
            0 <= i < events.len() && event_key(#[trigger] events[i]) == key ==> counter_of(
                events,
                key,
            ).latency_min_ms <= events[i].latency_ms <= counter_of(events, key).latency_max_ms,
    decreases events.len(),
{
    if events.len() > 0 {
        let fewer = events.drop_last();
        let e = events.last();
        counters_add_up(fewer, key);
        let before = counter_of(fewer, key);
        let after = counter_of(events, key);
        if event_key(e) == key {
            if before.total == 0 {
                lemma_none_under(fewer, key);
            }
            lemma_bounded_sum(
                before.total as int,
                before.latency_min_ms as int,
                before.latency_max_ms as int,
                before.latency_sum_ms as int,
                after.latency_min_ms as int,
                after.latency_max_ms as int,
                e.latency_ms as int,
            );
        }
        assert forall|i: int|
            0 <= i < events.len() && event_key(#[trigger] events[i]) == key implies
            after.latency_min_ms <= events[i].latency_ms <= after.latency_max_ms by {
            if i < fewer.len() {
                assert(event_key(fewer[i]) == key);
            }
        }
    }
}

proof fn lemma_none_under(events: Seq<EventView>, key: Seq<char>)
    requires
        outcomes(events, key, true) + outcomes(events, key, false) == 0,
    ensures
        !occurs(events, key),
    decreases events.len(),
{
    if events.len() > 0 {
        lemma_none_under(events.drop_last(), key);
        lemma_occurs_push(events, key);
    }
}

proof fn lemma_bounded_sum(
    total: int,
    least: int,
    greatest: int,
    sum: int,
    new_least: int,
    new_greatest: int,
    latency: int,
)
    requires
        0 <= total,
        total * least <= sum <= total * greatest,
        total > 0 ==> new_least <= least && greatest <= new_greatest,
        new_least <= latency <= new_greatest,
    ensures
        (total + 1) * new_least <= sum + latency <= (total + 1) * new_greatest,
{
    assert(total * new_least <= total * least) by (nonlinear_arith)
        requires
            0 <= total,
            total > 0 ==> new_least <= least,
    ;
    assert(total * greatest <= total * new_greatest) by (nonlinear_arith)
        requires
            0 <= total,
            total > 0 ==> greatest <= new_greatest,
    ;
    assert((total + 1) * new_least == total * new_least + new_least) by (nonlinear_arith);
    assert((total + 1) * new_greatest == total * new_greatest + new_greatest) by (nonlinear_arith);
}

/// How often the operations failed together.
pub open spec fn failures_listed(pairs: Seq<PairView>) -> int {
    pairs.fold_left(0int, |n: int, p: PairView| n + p.count)
}

/// Why the newest failure under `key` failed.
pub open spec fn latest_reason(events: Seq<EventView>, key: Seq<char>) -> Option<Seq<char>>
    decreases events.len(),
{
    if events.len() == 0 {
        None
    } else if !events.last().ok && event_key(events.last()) == key {
        Some(events.last().detail)
    } else {
        latest_reason(events.drop_last(), key)
    }
}

proof fn lemma_listed_update(pairs: Seq<PairView>, k: int, p: PairView)
    requires
        0 <= k < pairs.len(),
    ensures
        failures_listed(pairs.update(k, p)) == failures_listed(pairs) - pairs[k].count + p.count,
    decreases pairs.len(),
{
    let after = pairs.update(k, p);
    let last = pairs.len() - 1;
    if k == last {
        assert(after.drop_last() =~= pairs.drop_last());
    } else {
        assert(after.drop_last() =~= pairs.drop_last().update(k, p));
        lemma_listed_update(pairs.drop_last(), k, p);
    }
}

proof fn lemma_listed(events: Seq<EventView>)
    requires
        events.len() <= u64::MAX,
    ensures
        failures_listed(failure_pairs(events)) == failures(events),
        failures(events) == failed_latest_first(events).len(),
        forall|k: int|
            0 <= k < failure_pairs(events).len() ==> latest_reason(
                events,
                (#[trigger] failure_pairs(events)[k]).key,
            ) == Some(failure_pairs(events)[k].latest) && failure_pairs(events)[k].count > 0,
    decreases events.len(),
{
    if events.len() > 0 {
        let fewer = events.drop_last();
        let e = events.last();
        let key = event_key(e);
        let before = failure_pairs(fewer);
        let after = failure_pairs(events);
        lemma_listed(fewer);
        diagnosis_counts_failures(fewer);
        lemma_pair_place(before, key);
        lemma_failures_bound(fewer, key);
        if !e.ok {
            match pair_place(before, key) {
                Some(p) => {
                    assert(before[p].count == failures_under(fewer, before[p].key));
                    lemma_listed_update(before, p, after[p]);
                    assert(after =~= before.update(p, after[p]));
                },
                None => {
                    assert(after.drop_last() =~= before);
                },
            }
        }
        assert forall|k: int| 0 <= k < after.len() implies latest_reason(
            events,
            (#[trigger] after[k]).key,
        ) == Some(after[k].latest) && after[k].count > 0 by {
            if k < before.len() {
                assert(before[k].key == after[k].key);
                if !e.ok && before[k].key == key {
                    if let Some(p) = pair_place(before, key) {
                        if p < k {
                            assert(before[p].key != before[k].key);
                        } else if k < p {
                            assert(before[k].key != before[p].key);
                        }
                    }
                }
            }
        }
    }
}

proof fn lemma_failure_counts(events: Seq<EventView>, i: int)
    requires
        0 <= i < events.len(),
        !events[i].ok,
    ensures
        failures_under(events, event_key(events[i])) > 0,
    decreases events.len(),
{
    if i < events.len() - 1 {
        lemma_failure_counts(events.drop_last(), i);
    }
}

/// A diagnosis adds up. It lists each failing operation once, with the number of
/// its failures and the reason of the newest; every failure is under one of them;
/// and the numbers together are the failures among the events, of which there are
/// no more than events.
pub proof fn diagnosis_adds_up(events: Seq<EventView>, top: Seq<PairView>)
    requires
        events.len() <= u64::MAX,
        is_ranked(failure_pairs(events), pair_keys(failure_pairs(events)), top),
    ensures
        failures_listed(top) == failures(events),
        failures(events) == failed_latest_first(events).len(),
        failures(events) <= events.len(),
        forall|k: int|
            0 <= k < top.len() ==> (#[trigger] top[k]).count > 0 && top[k].count == failures_under(
                events,
                top[k].key,
            ) && latest_reason(events, top[k].key) == Some(top[k].latest),
        forall|a: int, b: int|
            0 <= a < b < top.len() ==> (#[trigger] top[a]).key != (#[trigger] top[b]).key,
        forall|i: int|
            0 <= i < events.len() && !(#[trigger] events[i]).ok ==> exists|k: int|
                0 <= k < top.len() && (#[trigger] top[k]).key == event_key(events[i]),
{
    let pairs = failure_pairs(events);
    let keys = pair_keys(pairs);
    lemma_listed(events);
    diagnosis_counts_failures(events);
    lemma_failures_bound(events, Seq::empty());
    ranking_keeps_items(pairs, keys, top);
    vstd::seq_lib::lemma_fold_left_permutation(top, pairs, |n: int, p: PairView| n + p.count, 0int);
    let order = choose|order: Seq<int>| #[trigger]
        is_ranking(keys, order) && is_reordered(pairs, order, top);
    assert forall|k: int| 0 <= k < top.len() implies (#[trigger] top[k]).count > 0 && top[k].count
        == failures_under(events, top[k].key) && latest_reason(events, top[k].key) == Some(
        top[k].latest,
    ) by {
        assert(top[k] == pairs[order[k]]);
    }
    assert forall|a: int, b: int| 0 <= a < b < top.len() implies (#[trigger] top[a]).key != (
    #[trigger] top[b]).key by {
        assert(top[a] == pairs[order[a]] && top[b] == pairs[order[b]]);
        assert(precedes(keys, order[a], order[b]));
        if order[a] < order[b] {
            assert(pairs[order[a]].key != pairs[order[b]].key);
        } else {
            assert(pairs[order[b]].key != pairs[order[a]].key);
        }
    }
    assert forall|i: int| 0 <= i < events.len() && !(#[trigger] events[i]).ok implies exists|k: int|
        0 <= k < top.len() && (#[trigger] top[k]).key == event_key(events[i]) by {
        let key = event_key(events[i]);
        lemma_failure_counts(events, i);
        lemma_pair_place(pairs, key);
        let p = pair_place(pairs, key)->0;
        let item = pairs[p];
        broadcast use vstd::seq_lib::group_to_multiset_ensures;

        assert(pairs.contains(item));
        assert(top.to_multiset().count(item) > 0);
        assert(top.contains(item));
        let k = choose|k: int| 0 <= k < top.len() && top[k] == item;
        assert(top[k].key == key);
    }
}

} // verus!
