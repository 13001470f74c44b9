//! What a whole wave of spreading activation finds.

use crate::double::Double;
use crate::stimulation::{
    activated, activated_all, activation_of, arrivals_at, arrivals_are_the_new_neighbours, beyond,
    every_neighbour_arrives, WaveEdge, WaveRequest, WaveRun,
};
use vstd::prelude::*;

verus! {

/// The ids of activations.
pub open spec fn ids(activations: Seq<(u64, Double)>) -> Seq<u64> {
    activations.map_values(|a: (u64, Double)| a.0)
}

/// `runs` are the states of a whole wave. `replies` are what came of each request:
/// the neighbours, and the activation passed on to them.
pub open spec fn is_wave(runs: Seq<WaveRun>, replies: Seq<(Seq<u64>, Double)>) -> bool {
    &&& runs.len() == replies.len() + 1
    &&& runs[0].begun()
    &&& forall|i: int| 0 <= i < runs.len() ==> (#[trigger] runs[i]).valid()
    &&& forall|i: int|
        0 <= i < replies.len() ==> match runs[i].asked() {
            WaveRequest::Spread { .. } => runs[i].spread_to(
                (#[trigger] replies[i]).0,
                replies[i].1,
                runs[i + 1],
            ),
            WaveRequest::MoveOn => runs[i].moved(runs[i + 1]),
            WaveRequest::Finish => false,
        }
    &&& runs.last().asked() is Finish
}

proof fn lemma_activated_ids(seen: Seq<(u64, Double)>, id: u64, activation: Double)
    ensures
        ids(activated(seen, id, activation)).contains(id),
        forall|other: u64| #[trigger]
            ids(seen).contains(other) ==> ids(activated(seen, id, activation)).contains(other),
        forall|k: int|
            0 <= k < activated(seen, id, activation).len() ==> (#[trigger] activated(
                seen,
                id,
                activation,
            )[k]) == (id, activation) || seen.contains(activated(seen, id, activation)[k]),
{
    let after = activated(seen, id, activation);
    crate::stimulation::lemma_place(seen, id);
    match crate::stimulation::place_of(seen, id) {
        Some(k) => {
            assert(ids(after)[k] == id);
            assert forall|other: u64| #[trigger] ids(seen).contains(other) implies ids(
                after,
            ).contains(other) by {
                let h = choose|h: int| 0 <= h < ids(seen).len() && ids(seen)[h] == other;
                assert(ids(after)[h] == other);
            }
        },
        None => {
            assert(ids(after)[seen.len() as int] == id);
            assert forall|other: u64| #[trigger] ids(seen).contains(other) implies ids(
                after,
            ).contains(other) by {
                let h = choose|h: int| 0 <= h < ids(seen).len() && ids(seen)[h] == other;
                assert(ids(after)[h] == other);
            }
        },
    }
    assert forall|k: int| 0 <= k < after.len() implies (#[trigger] after[k]) == (id, activation)
        || seen.contains(after[k]) by {
        if after[k] != (id, activation) {
            assert(after[k] == seen[k]);
        }
    }
}

proof fn lemma_activated_all_ids(seen: Seq<(u64, Double)>, arrivals: Seq<(u64, Double)>)
    ensures
        forall|id: u64| #[trigger]
            ids(seen).contains(id) ==> ids(activated_all(seen, arrivals)).contains(id),
        forall|id: u64| #[trigger]
            ids(arrivals).contains(id) ==> ids(activated_all(seen, arrivals)).contains(id),
        forall|k: int|
            0 <= k < activated_all(seen, arrivals).len() ==> arrivals.contains(
                #[trigger] activated_all(seen, arrivals)[k],
            ) || seen.contains(activated_all(seen, arrivals)[k]),
    decreases arrivals.len(),
{
    let after = activated_all(seen, arrivals);
    if arrivals.len() > 0 {
        let fewer = arrivals.drop_last();
        let last = arrivals.last();
        let before = activated_all(seen, fewer);
        lemma_activated_all_ids(seen, fewer);
        lemma_activated_ids(before, last.0, last.1);
        assert forall|id: u64| #[trigger] ids(arrivals).contains(id) implies ids(after).contains(
            id,
        ) by {
            let k = choose|k: int| 0 <= k < ids(arrivals).len() && ids(arrivals)[k] == id;
            if k < fewer.len() {
                assert(ids(fewer)[k] == id);
                assert(ids(fewer).contains(id));
                assert(ids(before).contains(id));
            }
        }
        assert forall|id: u64| #[trigger] ids(seen).contains(id) implies ids(after).contains(
            id,
        ) by {
            assert(ids(before).contains(id));
        }
        assert forall|k: int| 0 <= k < after.len() implies arrivals.contains(#[trigger] after[k])
            || seen.contains(after[k]) by {
            assert(arrivals[arrivals.len() - 1] == last);
            if after[k] != last {
                assert(before.contains(after[k]));
                let h = choose|h: int| 0 <= h < before.len() && before[h] == after[k];
                if fewer.contains(before[h]) {
                    let g = choose|g: int| 0 <= g < fewer.len() && fewer[g] == before[h];
                    assert(arrivals[g] == after[k]);
                }
            }
        }
    } else {
        assert forall|k: int| 0 <= k < after.len() implies arrivals.contains(#[trigger] after[k])
            || seen.contains(after[k]) by {
            assert(seen[k] == after[k]);
        }
    }
}

proof fn lemma_stays(runs: Seq<WaveRun>, replies: Seq<(Seq<u64>, Double)>, i: int, h: int, id: u64)
    requires
        is_wave(runs, replies),
        0 <= i <= h < runs.len(),
        ids(runs[i].seen@).contains(id) || ids(runs[i].arrivals@).contains(id),
    ensures
        ids(runs[h].seen@).contains(id) || ids(runs[h].arrivals@).contains(id),
    decreases h - i,
{
    if i < h {
        lemma_stays(runs, replies, i, h - 1, id);
        let run = runs[h - 1];
        let next = runs[h];
        let reply = replies[h - 1];
        if run.asked() is Spread {
            if ids(run.arrivals@).contains(id) {
                let k = choose|k: int|
                    0 <= k < ids(run.arrivals@).len() && ids(run.arrivals@)[k] == id;
                assert(ids(next.arrivals@)[k] == id);
            }
        } else if run.at >= run.wave@.len() && run.arrivals@.len() > 0 {
            lemma_activated_all_ids(run.seen@, run.arrivals@);
        }
    }
}

proof fn lemma_nothing_pending(runs: Seq<WaveRun>, replies: Seq<(Seq<u64>, Double)>, i: int)
    requires
        is_wave(runs, replies),
        0 <= i < runs.len(),
    ensures
        runs[i].rounds_left == 0 ==> runs[i].arrivals@.len() == 0,
        runs[i].seeds == runs[0].seeds,
        runs[i].tau == runs[0].tau,
    decreases i,
{
    if i > 0 {
        lemma_nothing_pending(runs, replies, i - 1);
        let reply = replies[i - 1];
    }
}

/// A wave finds every neighbour it is told of: where the activation passed on is
/// above the threshold, each neighbour of a memory that it spread from has been
/// reached when it ends, and is discovered, unless it is a seed.
pub proof fn waves_find_every_neighbour(
    runs: Seq<WaveRun>,
    replies: Seq<(Seq<u64>, Double)>,
    i: int,
    j: int,
)
    requires
        is_wave(runs, replies),
        0 <= i < replies.len(),
        runs[i].asked() is Spread,
        0 <= j < replies[i].0.len(),
        runs[0].tau.lt(replies[i].1),
    ensures
        ids(runs.last().seen@).contains(replies[i].0[j]),
        ids(runs[0].seeds@).contains(replies[i].0[j]) || ids(
            beyond(runs.last().seen@, runs[0].seeds@),
        ).contains(replies[i].0[j]),
{
    let run = runs[i];
    let next = runs[i + 1];
    let (neighbors, passed) = replies[i];
    let id = neighbors[j];
    lemma_nothing_pending(runs, replies, i);
    if !ids(run.seen@).contains(id) {
        assert forall|k: int| 0 <= k < run.seen@.len() implies (#[trigger] run.seen@[k]).0 != id by {
            assert(ids(run.seen@)[k] == run.seen@[k].0);
        }
        every_neighbour_arrives(run.seen@, neighbors, passed, run.tau, j);
        let added = arrivals_at(run.seen@, neighbors, passed, run.tau);
        let k = choose|k: int| 0 <= k < added.len() && added[k] == (id, passed);
        assert(ids(next.arrivals@)[run.arrivals@.len() + k] == id);
    }
    lemma_stays(runs, replies, i + 1, runs.len() - 1, id);
    lemma_nothing_pending(runs, replies, runs.len() - 1);
    let seen = runs.last().seen@;
    let seeds = runs[0].seeds@;
    assert(ids(seen).contains(id));
    let k = choose|k: int| 0 <= k < ids(seen).len() && ids(seen)[k] == id;
    crate::stimulation::discoveries_are_no_seeds(seen, seeds);
    let pred = |a: (u64, Double)| !seeds.map_values(|s: (u64, Double)| s.0).contains(a.0);
    broadcast use vstd::seq_lib::group_filter_ensures;

    if !ids(seeds).contains(id) {
        assert(pred(seen[k]));
        assert(seen.filter(pred).contains(seen[k]));
        let h = choose|h: int|
            0 <= h < seen.filter(pred).len() && seen.filter(pred)[h] == seen[k];
        assert(ids(beyond(seen, seeds))[h] == id);
    }
}

/// A memory got this activation in one of the first `n` steps.
pub open spec fn was_passed(
    runs: Seq<WaveRun>,
    replies: Seq<(Seq<u64>, Double)>,
    n: int,
    a: (u64, Double),
) -> bool {
    exists|p: int, j: int|
        0 <= p < n && runs[p].asked() is Spread && 0 <= j < replies[p].0.len() && (
        #[trigger] replies[p].0[j]) == a.0 && replies[p].1 == a.1
}

proof fn lemma_sources(
    runs: Seq<WaveRun>,
    replies: Seq<(Seq<u64>, Double)>,
    i: int,
    a: (u64, Double),
)
    requires
        is_wave(runs, replies),
        0 <= i < runs.len(),
        runs[i].seen@.contains(a) || runs[i].arrivals@.contains(a),
    ensures
        runs[0].seeds@.contains(a) || (was_passed(runs, replies, i, a) && runs[0].tau.lt(a.1)),
    decreases i,
{
    if i == 0 {
        lemma_activated_all_ids(Seq::empty(), runs[0].seeds@);
        let seen = runs[0].seen@;
        let k = choose|k: int| 0 <= k < seen.len() && seen[k] == a;
        assert(runs[0].seeds@.contains(seen[k]) || Seq::<(u64, Double)>::empty().contains(seen[k]));
    } else {
        let run = runs[i - 1];
        let next = runs[i];
        let (neighbors, passed) = replies[i - 1];
        lemma_nothing_pending(runs, replies, i - 1);
        if run.asked() is Spread && !run.seen@.contains(a) && !run.arrivals@.contains(a) {
            let added = arrivals_at(run.seen@, neighbors, passed, run.tau);
            let k = choose|k: int| 0 <= k < next.arrivals@.len() && next.arrivals@[k] == a;
            if k < run.arrivals@.len() {
                assert(run.arrivals@[k] == a);
            }
            let h = k - run.arrivals@.len();
            assert(added[h] == a);
            arrivals_are_the_new_neighbours(run.seen@, neighbors, passed, run.tau);
            let new = |id: u64| !run.seen@.map_values(|a: (u64, Double)| a.0).contains(id);
            lemma_filter_member(neighbors, new, h);
            let j = choose|j: int| 0 <= j < neighbors.len() && neighbors[j] == a.0;
            assert(replies[i - 1].0[j] == a.0);
            assert(was_passed(runs, replies, i, a));
        } else {
            if run.asked() is MoveOn && run.at >= run.wave@.len() && run.arrivals@.len() > 0 {
                lemma_activated_all_ids(run.seen@, run.arrivals@);
                if next.seen@.contains(a) {
                    let k = choose|k: int| 0 <= k < next.seen@.len() && next.seen@[k] == a;
                    assert(run.arrivals@.contains(next.seen@[k]) || run.seen@.contains(
                        next.seen@[k],
                    ));
                }
            }
            lemma_sources(runs, replies, i - 1, a);
            if was_passed(runs, replies, i - 1, a) {
                let (p, j) = choose|p: int, j: int|
                    0 <= p < i - 1 && runs[p].asked() is Spread && 0 <= j < replies[p].0.len() && (
                    #[trigger] replies[p].0[j]) == a.0 && replies[p].1 == a.1;
                assert(replies[p].0[j] == a.0);
                assert(was_passed(runs, replies, i, a));
            }
        }
    }
}

proof fn lemma_filter_member(s: Seq<u64>, pred: spec_fn(u64) -> bool, k: int)
    requires
        0 <= k < s.filter(pred).len(),
    ensures
        s.contains(s.filter(pred)[k]),
    decreases s.len(),
{
    reveal(Seq::filter);
    let fewer = s.drop_last();
    if s.len() > 0 {
        if k < fewer.filter(pred).len() {
            lemma_filter_member(fewer, pred, k);
            let h = choose|h: int| 0 <= h < fewer.len() && fewer[h] == fewer.filter(pred)[k];
            assert(s[h] == s.filter(pred)[k]);
        } else {
            assert(s[s.len() - 1] == s.filter(pred)[k]);
        }
    }
}

/// A wave finds nothing else: what it discovers is a neighbour of a memory that it
/// spread from, with the activation that was passed on there, above the threshold.
pub proof fn waves_find_neighbours_only(
    runs: Seq<WaveRun>,
    replies: Seq<(Seq<u64>, Double)>,
    k: int,
)
    requires
        is_wave(runs, replies),
        0 <= k < beyond(runs.last().seen@, runs[0].seeds@).len(),
    ensures
        was_passed(
            runs,
            replies,
            replies.len() as int,
            beyond(runs.last().seen@, runs[0].seeds@)[k],
        ),
        runs[0].tau.lt(beyond(runs.last().seen@, runs[0].seeds@)[k].1),
        !ids(runs[0].seeds@).contains(beyond(runs.last().seen@, runs[0].seeds@)[k].0),
{
    let seen = runs.last().seen@;
    let seeds = runs[0].seeds@;
    let a = beyond(seen, seeds)[k];
    let from = crate::stimulation::lemma_beyond(seen, seeds, k);
    assert(seen[from] == a);
    lemma_sources(runs, replies, runs.len() - 1, a);
    crate::stimulation::discoveries_are_no_seeds(seen, seeds);
    let pred = |x: (u64, Double)| !seeds.map_values(|s: (u64, Double)| s.0).contains(x.0);
    broadcast use vstd::seq_lib::group_filter_ensures;

    assert(pred(seen.filter(pred)[k]));
    if seeds.contains(a) {
        let h = choose|h: int| 0 <= h < seeds.len() && seeds[h] == a;
        assert(ids(seeds)[h] == a.0);
    }
}

/// A memory that a wave spreads from is spread from along all three edges, with the
/// same activation.
pub proof fn waves_follow_every_edge(
    runs: Seq<WaveRun>,
    replies: Seq<(Seq<u64>, Double)>,
    i: int,
    id: u64,
    activation: Double,
)
    requires
        is_wave(runs, replies),
        0 <= i < runs.len(),
        runs[i].asked() == (WaveRequest::Spread {
            engram_id: id,
            edge: WaveEdge::Reinforces,
            activation,
        }),
    ensures
        i + 3 < runs.len(),
        runs[i + 1].asked() == (WaveRequest::Spread {
            engram_id: id,
            edge: WaveEdge::TemporalSequence,
            activation,
        }),
        runs[i + 2].asked() == (WaveRequest::Spread {
            engram_id: id,
            edge: WaveEdge::Contradicts,
            activation,
        }),
        runs[i + 3].at == runs[i].at + 1,
        runs[i + 3].edge == WaveEdge::Reinforces,
{
    assert(i < runs.len() - 1);
    let first = replies[i];
    assert(i + 1 < runs.len() - 1);
    let second = replies[i + 1];
    assert(i + 2 < runs.len() - 1);
    let third = replies[i + 2];
}

proof fn lemma_turn_comes(
    runs: Seq<WaveRun>,
    replies: Seq<(Seq<u64>, Double)>,
    i: int,
    k: int,
) -> (p: int)
    requires
        is_wave(runs, replies),
        0 <= i < runs.len(),
        runs[i].rounds_left > 0,
        k < runs[i].wave@.len(),
        runs[i].at < k || (runs[i].at == k && runs[i].edge == WaveEdge::Reinforces),
    ensures
        i <= p < runs.len(),
        runs[p].at == k,
        runs[p].edge == WaveEdge::Reinforces,
        runs[p].rounds_left == runs[i].rounds_left,
        runs[p].wave == runs[i].wave,
        runs[p].seen == runs[i].seen,
        runs[p].tau == runs[i].tau,
    decreases runs.len() - i,
{
    if runs[i].at == k && runs[i].edge == WaveEdge::Reinforces {
        i
    } else {
        assert(i < runs.len() - 1);
        let reply = replies[i];
        lemma_turn_comes(runs, replies, i + 1, k)
    }
}

/// A round leaves no memory out: each memory of the round whose activation is above
/// the threshold is spread from.
pub proof fn rounds_leave_nothing_out(
    runs: Seq<WaveRun>,
    replies: Seq<(Seq<u64>, Double)>,
    i: int,
    k: int,
)
    requires
        is_wave(runs, replies),
        0 <= i < runs.len(),
        runs[i].rounds_left > 0,
        runs[i].at == 0,
        runs[i].edge == WaveEdge::Reinforces,
        0 <= k < runs[i].wave@.len(),
        runs[i].tau.lt(activation_of(runs[i].seen@, runs[i].wave@[k])),
    ensures
        exists|p: int|
            i <= p < runs.len() && (#[trigger] runs[p]).asked() == (WaveRequest::Spread {
                engram_id: runs[i].wave@[k],
                edge: WaveEdge::Reinforces,
                activation: activation_of(runs[i].seen@, runs[i].wave@[k]),
            }),
{
    let p = lemma_turn_comes(runs, replies, i, k);
    assert(runs[p].asked() is Spread);
}

/// What a round reached is what the next round spreads from, all of it, while
/// rounds are left.
pub proof fn next_round_takes_what_arrived(run: WaveRun, next: WaveRun)
    requires
        run.valid(),
        run.rounds_left > 0,
        run.at == run.wave@.len(),
        run.arrivals@.len() > 0,
        run.moved(next),
    ensures
        next.wave@.len() == run.arrivals@.len(),
        forall|k: int| 0 <= k < run.arrivals@.len() ==> next.wave@[k] == run.arrivals@[k].0,
        next.rounds_left == run.rounds_left - 1,
        next.at == 0,
        next.edge == WaveEdge::Reinforces,
{
}

/// A wave keeps its seeds and its threshold to the end, and has never more rounds
/// left than it began with.
pub proof fn waves_keep_what_they_have(
    runs: Seq<WaveRun>,
    replies: Seq<(Seq<u64>, Double)>,
    i: int,
)
    requires
        is_wave(runs, replies),
        0 <= i < runs.len(),
    ensures
        runs[i].seeds == runs[0].seeds,
        runs[i].tau == runs[0].tau,
        runs[i].rounds_left <= runs[0].rounds_left,
    decreases i,
{
    if i > 0 {
        waves_keep_what_they_have(runs, replies, i - 1);
        let before = runs[i - 1];
        assert(before.valid());
        let reply = replies[i - 1];
        assert(before.asked() is Spread || before.asked() is MoveOn);
    }
}

} // verus!
