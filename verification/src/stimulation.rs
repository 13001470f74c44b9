//! Spreading activation: neighbours in database replies, surfacing, and the wave
//! that runs out from the memories of a recall.

use crate::config::StimulationConfig;
use crate::double::Double;
use crate::edge_weights::{EdgeWeights, IDX_CONTRADICTS, IDX_REINFORCES, IDX_TEMPORAL_SEQ};
use crate::json::{
    field, items_view, lemma_entry_is_smaller, lookup, Json, JsonNumber, JsonView,
};
use crate::ranking::{is_ranked, is_ranking, is_reordered, ranking_keeps_items};
use crate::retrieval::{at_most, is_top, score_keys, top_results};
use crate::text::{decimal, decimal_reads_back, parse_u64, unsigned_value};
use crate::types::ResonanceResult;
use vstd::prelude::*;

verus! {

/// The id that a number writes: a whole number, or one cut to it, not negative.
pub open spec fn number_id(n: JsonNumber) -> Option<u64> {
    match n {
        JsonNumber::Unsigned(u) => Some(u),
        JsonNumber::Signed(i) => if i >= 0 {
            Some(i as u64)
        } else {
            None
        },
        JsonNumber::Float(d) => if (Double { bits: 0 }).le(d) {
            Some(d.as_u64())
        } else {
            None
        },
    }
}

/// The entry that holds the id of a node: `$id`, else `id`.
pub open spec fn id_entry(entries: Seq<(Seq<char>, JsonView)>) -> Option<JsonView> {
    match lookup(entries, "$id"@) {
        Some(v) => Some(v),
        None => lookup(entries, "id"@),
    }
}

/// The id that a value writes: a number, a text of one, or a node that carries
/// one.
pub open spec fn loose_id(j: JsonView) -> Option<u64>
    decreases j,
    via loose_id_shrinks
{
    match j {
        JsonView::Number(n) => number_id(n),
        JsonView::Text(s) => match unsigned_value(s, u64::MAX as nat) {
            Some(n) => Some(n as u64),
            None => None,
        },
        JsonView::Object(entries) => match id_entry(entries) {
            Some(v) => loose_id(v),
            None => None,
        },
        _ => None,
    }
}

#[via_fn]
proof fn loose_id_shrinks(j: JsonView) {
    if let JsonView::Object(entries) = j {
        lemma_entry_is_smaller(entries, "$id"@);
        lemma_entry_is_smaller(entries, "id"@);
    }
}

/// The id that a value writes.
pub fn parse_id_value(v: &Json) -> (r: Option<u64>)
    ensures
        r == loose_id(v@),
    decreases v@,
{
    if let Some(n) = v.as_number() {
        return match n {
            JsonNumber::Unsigned(u) => Some(u),
            JsonNumber::Signed(i) => if i >= 0 {
                Some(i as u64)
            } else {
                None
            },
            JsonNumber::Float(d) => if (Double { bits: 0 }).at_most(d) {
                Some(d.to_u64())
            } else {
                None
            },
        };
    }
    if let Some(s) = v.as_text() {
        return parse_u64(s);
    }
    proof {
        if let JsonView::Object(entries) = v@ {
            lemma_entry_is_smaller(entries, "$id"@);
            lemma_entry_is_smaller(entries, "id"@);
        }
    }
    match v.get("$id") {
        Some(inner) => parse_id_value(inner),
        None => match v.get("id") {
            Some(inner) => parse_id_value(inner),
            None => None,
        },
    }
}

/// The ids that the values write, in order; values that write none are passed
/// over.
pub open spec fn loose_ids(items: Seq<JsonView>) -> Seq<u64>
    decreases items.len(),
{
    if items.len() == 0 {
        Seq::empty()
    } else {
        let before = loose_ids(items.drop_last());
        match loose_id(items.last()) {
            Some(id) => before.push(id),
            None => before,
        }
    }
}

/// The values under `neighbors`: the items of a list, or a single value.
pub open spec fn neighbor_values(reply: JsonView) -> Seq<JsonView> {
    match field(reply, "neighbors"@) {
        Some(JsonView::Array(items)) => items,
        Some(single) => seq![single],
        None => Seq::empty(),
    }
}

/// The neighbour ids of a reply.
pub fn parse_neighbor_ids(reply: &Json) -> (r: Vec<u64>)
    ensures
        r@ == loose_ids(neighbor_values(reply@)),
{
    let mut out: Vec<u64> = Vec::new();
    if let Some(value) = reply.get("neighbors") {
        match value.as_array() {
            Some(items) => {
                let ghost all = items_view(items@);
                let mut i: usize = 0;
                while i < items.len()
                    invariant
                        i <= items@.len(),
                        all == items_view(items@),
                        out@ == loose_ids(all.take(i as int)),
                    decreases items@.len() - i,
                {
                    assert(all.take(i + 1).drop_last() =~= all.take(i as int));
                    assert(all.take(i + 1).last() == items@[i as int]@);
                    if let Some(id) = parse_id_value(&items[i]) {
                        out.push(id);
                    }
                    i += 1;
                }
                assert(all.take(i as int) =~= all);
            },
            None => {
                proof {
                    let one = seq![value@];
                    assert(one.drop_last() =~= Seq::empty());
                    assert(loose_ids(one.drop_last()) =~= Seq::empty());
                }
                if let Some(id) = parse_id_value(value) {
                    out.push(id);
                    assert(out@ =~= Seq::empty().push(id));
                }
            },
        }
    }
    out
}

/// The ids ascend, none twice.
pub open spec fn ascending(ids: Seq<u64>) -> bool {
    forall|a: int, b: int| 0 <= a < b < ids.len() ==> ids[a] < ids[b]
}

/// One of the activations is of `id` and above `tau`.
pub open spec fn surfaces(activations: Seq<(u64, Double)>, tau: Double, id: u64) -> bool {
    exists|k: int|
        0 <= k < activations.len() && (#[trigger] activations[k]).0 == id && tau.lt(
            activations[k].1,
        )
}

/// The engine: its settings, and the weights that it has learned.
#[derive(Debug)]
pub struct StimulationEngine {
    pub config: StimulationConfig,
    pub weights: EdgeWeights,
}

impl StimulationEngine {
    /// An engine of settings and weights.
    pub fn new(config: StimulationConfig, weights: EdgeWeights) -> (r: StimulationEngine)
        ensures
            r.config == config,
            r.weights == weights,
    {
        StimulationEngine { config, weights }
    }

    /// The settings.
    pub fn config(&self) -> (r: &StimulationConfig)
        ensures
            *r == self.config,
    {
        &self.config
    }

    /// The weights.
    pub fn weights(&self) -> (r: &EdgeWeights)
        ensures
            *r == self.weights,
    {
        &self.weights
    }

    /// The weights, to be changed.
    pub fn weights_mut(&mut self) -> (r: &mut EdgeWeights)
        ensures
            *r == old(self).weights,
            final(self).weights == *final(r),
            final(self).config == old(self).config,
    {
        &mut self.weights
    }

    /// The ids whose activation is above `tau`, ascending.
    pub fn surfaced(activations: &Vec<(u64, Double)>, tau: Double) -> (r: Vec<u64>)
        ensures
            ascending(r@),
            forall|id: u64| r@.contains(id) <==> #[trigger] surfaces(activations@, tau, id),
    {
        let mut out: Vec<u64> = Vec::new();
        let mut i: usize = 0;
        while i < activations.len()
            invariant
                i <= activations@.len(),
                ascending(out@),
                forall|id: u64|
                    out@.contains(id) <==> #[trigger] surfaces(
                        activations@.take(i as int),
                        tau,
                        id,
                    ),
            decreases activations@.len() - i,
        {
            let (id, activation) = activations[i];
            let ghost seen = activations@.take(i as int);
            let ghost next = activations@.take(i + 1);
            let ghost before = out@;
            proof {
                assert forall|x: u64| #[trigger]
                    surfaces(next, tau, x) <==> surfaces(seen, tau, x) || (x == id && tau.lt(
                        activation,
                    )) by {
                    if surfaces(seen, tau, x) {
                        let k = choose|k: int|
                            0 <= k < seen.len() && (#[trigger] seen[k]).0 == x && tau.lt(seen[k].1);
                        assert(next[k] == seen[k]);
                    }
                    if surfaces(next, tau, x) {
                        let k = choose|k: int|
                            0 <= k < next.len() && (#[trigger] next[k]).0 == x && tau.lt(next[k].1);
                        if k < i {
                            assert(seen[k] == next[k]);
                        }
                    }
                    if x == id && tau.lt(activation) {
                        assert(next[i as int] == (id, activation));
                    }
                }
            }
            if tau.less(activation) {
                let mut p: usize = 0;
                while p < out.len() && out[p] < id
                    invariant
                        p <= out@.len(),
                        forall|q: int| 0 <= q < p ==> out@[q] < id,
                    decreases out@.len() - p,
                {
                    p += 1;
                }
                if p == out.len() || out[p] != id {
                    out.insert(p, id);
                    proof {
                        assert(out@ =~= before.insert(p as int, id));
                        assert(out@[p as int] == id);
                        assert forall|a: int, b: int| 0 <= a < b < out@.len() implies out@[a]
                            < out@[b] by {
                            let x = if a < p {
                                a
                            } else {
                                a - 1
                            };
                            let y = if b < p {
                                b
                            } else {
                                b - 1
                            };
                            if a == p {
                                assert(out@[b] == before[y]);
                                if y > p {
                                    assert(before[p as int] < before[y]);
                                }
                            } else if b == p {
                                assert(out@[a] == before[a]);
                            } else {
                                assert(out@[a] == before[x] && out@[b] == before[y]);
                            }
                        }
                        assert forall|x: u64| out@.contains(x) <==> before.contains(x) || x == id by {
                            if before.contains(x) {
                                let k = before.index_of(x);
                                if k < p {
                                    assert(out@[k] == x);
                                } else {
                                    assert(out@[k + 1] == x);
                                }
                            }
                            if out@.contains(x) && x != id {
                                let k = out@.index_of(x);
                                if k < p {
                                    assert(before[k] == x);
                                } else {
                                    assert(before[k - 1] == x);
                                }
                            }
                        }
                    }
                } else {
                    assert(before.contains(id));
                }
            }
            i += 1;
        }
        assert(activations@.take(i as int) =~= activations@);
        out
    }
}

/// The edges between engrams along which a wave spreads, in order.
#[derive(Clone, Copy, Debug, PartialEq, Eq, Structural)]
pub enum WaveEdge {
    Reinforces,
    TemporalSequence,
    Contradicts,
}

impl WaveEdge {
    /// The name of the edge in the graph.
    pub open spec fn label_view(self) -> Seq<char> {
        match self {
            WaveEdge::Reinforces => "Reinforces"@,
            WaveEdge::TemporalSequence => "TemporalSequence"@,
            WaveEdge::Contradicts => "Contradicts"@,
        }
    }

    /// The name of the edge in the graph.
    pub fn label(self) -> (r: &'static str)
        ensures
            r@ == self.label_view(),
    {
        match self {
            WaveEdge::Reinforces => "Reinforces",
            WaveEdge::TemporalSequence => "TemporalSequence",
            WaveEdge::Contradicts => "Contradicts",
        }
    }

    /// The place of the edge's weight.
    pub fn weight_index(self) -> (r: usize)
        ensures
            r == match self {
                WaveEdge::Reinforces => IDX_REINFORCES,
                WaveEdge::TemporalSequence => IDX_TEMPORAL_SEQ,
                WaveEdge::Contradicts => IDX_CONTRADICTS,
            },
    {
        match self {
            WaveEdge::Reinforces => IDX_REINFORCES,
            WaveEdge::TemporalSequence => IDX_TEMPORAL_SEQ,
            WaveEdge::Contradicts => IDX_CONTRADICTS,
        }
    }
}

/// The place of `id` among the activations.
pub open spec fn place_of(seen: Seq<(u64, Double)>, id: u64) -> Option<int>
    decreases seen.len(),
{
    if seen.len() == 0 {
        None
    } else if seen.last().0 == id {
        Some(seen.len() - 1)
    } else {
        place_of(seen.drop_last(), id)
    }
}

/// The id has an activation.
pub open spec fn is_seen(seen: Seq<(u64, Double)>, id: u64) -> bool {
    place_of(seen, id) is Some
}

/// The activation of `id`; zero where it has none.
pub open spec fn activation_of(seen: Seq<(u64, Double)>, id: u64) -> Double {
    match place_of(seen, id) {
        Some(k) => seen[k].1,
        None => Double { bits: 0 },
    }
}

/// The activations after `id` got a new one.
pub open spec fn activated(seen: Seq<(u64, Double)>, id: u64, activation: Double) -> Seq<
    (u64, Double),
> {
    match place_of(seen, id) {
        Some(k) => seen.update(k, (id, activation)),
        None => seen.push((id, activation)),
    }
}

/// The activations after each of the arrivals got its own, in order.
pub open spec fn activated_all(seen: Seq<(u64, Double)>, arrivals: Seq<(u64, Double)>) -> Seq<
    (u64, Double),
>
    decreases arrivals.len(),
{
    if arrivals.len() == 0 {
        seen
    } else {
        activated(
            activated_all(seen, arrivals.drop_last()),
            arrivals.last().0,
            arrivals.last().1,
        )
    }
}

/// What arrives at the neighbours: the activation passed on, at those not seen
/// before, where it is above `tau`.
pub open spec fn arrivals_at(
    seen: Seq<(u64, Double)>,
    neighbors: Seq<u64>,
    passed: Double,
    tau: Double,
) -> Seq<(u64, Double)>
    decreases neighbors.len(),
{
    if neighbors.len() == 0 {
        Seq::empty()
    } else {
        let before = arrivals_at(seen, neighbors.drop_last(), passed, tau);
        if !is_seen(seen, neighbors.last()) && tau.lt(passed) {
            before.push((neighbors.last(), passed))
        } else {
            before
        }
    }
}

/// The ids of activations.
pub open spec fn ids_in(activations: Seq<(u64, Double)>) -> Seq<u64> {
    activations.map_values(|a: (u64, Double)| a.0)
}

/// The ids whose activation is above `tau`, in order.
pub open spec fn ids_above(activations: Seq<(u64, Double)>, tau: Double) -> Seq<u64>
    decreases activations.len(),
{
    if activations.len() == 0 {
        Seq::empty()
    } else {
        let before = ids_above(activations.drop_last(), tau);
        if tau.lt(activations.last().1) {
            before.push(activations.last().0)
        } else {
            before
        }
    }
}

/// The activations whose id is none of the seeds, in order.
pub open spec fn beyond(seen: Seq<(u64, Double)>, seeds: Seq<(u64, Double)>) -> Seq<(u64, Double)>
    decreases seen.len(),
{
    if seen.len() == 0 {
        Seq::empty()
    } else {
        let before = beyond(seen.drop_last(), seeds);
        if is_seen(seeds, seen.last().0) {
            before
        } else {
            before.push(seen.last())
        }
    }
}

/// No id stands twice.
pub open spec fn ids_differ(seen: Seq<(u64, Double)>) -> bool {
    forall|a: int, b: int|
        0 <= a < b < seen.len() ==> (#[trigger] seen[a]).0 != (#[trigger] seen[b]).0
}

pub(crate) proof fn lemma_place(seen: Seq<(u64, Double)>, id: u64)
    ensures
        match place_of(seen, id) {
            Some(k) => 0 <= k < seen.len() && seen[k].0 == id,
            None => forall|k: int| 0 <= k < seen.len() ==> (#[trigger] seen[k]).0 != id,
        },
    decreases seen.len(),
{
    if seen.len() > 0 && seen.last().0 != id {
        lemma_place(seen.drop_last(), id);
        if place_of(seen, id) is None {
            assert forall|k: int| 0 <= k < seen.len() implies (#[trigger] seen[k]).0 != id by {
                if k < seen.len() - 1 {
                    assert(seen.drop_last()[k] == seen[k]);
                }
            }
        }
    }
}

proof fn lemma_place_is(seen: Seq<(u64, Double)>, id: u64, k: int)
    requires
        ids_differ(seen),
        0 <= k < seen.len(),
        seen[k].0 == id,
    ensures
        place_of(seen, id) == Some(k),
{
    lemma_place(seen, id);
    if let Some(p) = place_of(seen, id) {
        if p < k {
            assert(seen[p].0 != seen[k].0);
        } else if k < p {
            assert(seen[k].0 != seen[p].0);
        }
    }
}

proof fn lemma_activated(seen: Seq<(u64, Double)>, id: u64, activation: Double)
    requires
        ids_differ(seen),
    ensures
        ids_differ(activated(seen, id, activation)),
        activation_of(activated(seen, id, activation), id) == activation,
        forall|other: u64|
            other != id ==> #[trigger] is_seen(activated(seen, id, activation), other) == is_seen(
                seen,
                other,
            ) && activation_of(activated(seen, id, activation), other) == activation_of(
                seen,
                other,
            ),
        is_seen(activated(seen, id, activation), id),
{
    let after = activated(seen, id, activation);
    lemma_place(seen, id);
    assert forall|a: int, b: int| 0 <= a < b < after.len() implies (#[trigger] after[a]).0 != (
    #[trigger] after[b]).0 by {
        if b < seen.len() {
            assert(seen[a].0 != seen[b].0);
            assert(after[a].0 == seen[a].0 && after[b].0 == seen[b].0);
        } else {
            assert(after[a] == seen[a]);
        }
    }
    match place_of(seen, id) {
        Some(k) => {
            lemma_place_is(after, id, k);
        },
        None => {
            lemma_place_is(after, id, seen.len() as int);
        },
    }
    assert forall|other: u64| other != id implies #[trigger] is_seen(after, other) == is_seen(
        seen,
        other,
    ) && activation_of(after, other) == activation_of(seen, other) by {
        lemma_place(seen, other);
        lemma_place(after, other);
        match place_of(seen, other) {
            Some(k) => {
                assert(after[k] == seen[k]);
                lemma_place_is(after, other, k);
            },
            None => {
                if let Some(k) = place_of(after, other) {
                    assert(k < seen.len() ==> seen[k].0 == other);
                }
            },
        }
    }
}

proof fn lemma_activated_all(seen: Seq<(u64, Double)>, arrivals: Seq<(u64, Double)>, tau: Double)
    requires
        ids_differ(seen),
        forall|k: int| 0 <= k < arrivals.len() ==> !is_seen(seen, (#[trigger] arrivals[k]).0),
        forall|k: int| 0 <= k < arrivals.len() ==> tau.lt((#[trigger] arrivals[k]).1),
    ensures
        ids_differ(activated_all(seen, arrivals)),
        forall|id: u64| #[trigger]
            is_seen(seen, id) ==> is_seen(activated_all(seen, arrivals), id) && activation_of(
                activated_all(seen, arrivals),
                id,
            ) == activation_of(seen, id),
        forall|id: u64| #[trigger]
            is_seen(activated_all(seen, arrivals), id) && !is_seen(seen, id) ==> tau.lt(
                activation_of(activated_all(seen, arrivals), id),
            ),
    decreases arrivals.len(),
{
    if arrivals.len() > 0 {
        let fewer = arrivals.drop_last();
        assert forall|k: int| 0 <= k < fewer.len() implies !is_seen(seen, (#[trigger] fewer[k]).0)
            && tau.lt(fewer[k].1) by {
            assert(fewer[k] == arrivals[k]);
        }
        lemma_activated_all(seen, fewer, tau);
        let last = arrivals[arrivals.len() - 1];
        lemma_activated(activated_all(seen, fewer), last.0, last.1);
        assert(!is_seen(seen, last.0));
    }
}

/// A wave under way.
#[derive(Debug)]
pub struct WaveRun {
    /// The memories that the wave started from.
    pub seeds: Vec<(u64, Double)>,
    /// Every memory reached so far, with its activation.
    pub seen: Vec<(u64, Double)>,
    pub tau: Double,
    /// How many rounds are left, this one counted.
    pub rounds_left: usize,
    /// The memories of this round.
    pub wave: Vec<u64>,
    pub at: usize,
    pub edge: WaveEdge,
    /// What this round has reached.
    pub arrivals: Vec<(u64, Double)>,
}

/// What a wave asks for next.
#[derive(Clone, Copy, Debug, PartialEq, Eq, Structural)]
pub enum WaveRequest {
    /// Fetch the neighbours of a memory along an edge, and pass its activation
    /// on.
    Spread { engram_id: u64, edge: WaveEdge, activation: Double },
    /// Nothing is to be fetched at this place.
    MoveOn,
    Finish,
}

impl WaveRun {
    /// No memory is seen twice; the seeds keep their activation, whatever else
    /// is seen is above the threshold, and what arrived is above it and new.
    pub open spec fn valid(&self) -> bool {
        &&& self.at <= self.wave@.len()
        &&& ids_differ(self.seen@)
        &&& forall|id: u64| #[trigger]
            is_seen(self.seeds@, id) ==> is_seen(self.seen@, id) && activation_of(self.seen@, id)
                == activation_of(self.seeds@, id)
        &&& forall|id: u64| #[trigger]
            is_seen(self.seen@, id) && !is_seen(self.seeds@, id) ==> self.tau.lt(
                activation_of(self.seen@, id),
            )
        &&& forall|k: int|
            0 <= k < self.arrivals@.len() ==> !is_seen(self.seen@, (
            #[trigger] self.arrivals@[k]).0) && self.tau.lt(self.arrivals@[k].1)
    }

    /// The request at hand.
    pub open spec fn asked(&self) -> WaveRequest {
        if self.rounds_left == 0 {
            WaveRequest::Finish
        } else if self.at < self.wave@.len() && !activation_of(
            self.seen@,
            self.wave@[self.at as int],
        ).le(self.tau) {
            WaveRequest::Spread {
                engram_id: self.wave@[self.at as int],
                edge: self.edge,
                activation: activation_of(self.seen@, self.wave@[self.at as int]),
            }
        } else {
            WaveRequest::MoveOn
        }
    }

    fn find(seen: &Vec<(u64, Double)>, id: u64) -> (r: Option<usize>)
        ensures
            match r {
                Some(k) => place_of(seen@, id) == Some(k as int) && k < seen@.len(),
                None => place_of(seen@, id) is None,
            },
    {
        let mut i: usize = seen.len();
        assert(seen@.take(i as int) =~= seen@);
        while i > 0
            invariant
                i <= seen@.len(),
                place_of(seen@, id) == place_of(seen@.take(i as int), id),
            decreases i,
        {
            assert(seen@.take(i as int).drop_last() =~= seen@.take(i - 1));
            if seen[i - 1].0 == id {
                return Some(i - 1);
            }
            i -= 1;
        }
        None
    }

    fn activate(seen: &mut Vec<(u64, Double)>, id: u64, activation: Double)
        ensures
            final(seen)@ == activated(old(seen)@, id, activation),
    {
        match WaveRun::find(seen, id) {
            Some(k) => {
                seen.set(k, (id, activation));
            },
            None => {
                seen.push((id, activation));
            },
        }
    }

    /// The wave is at its beginning.
    pub open spec fn begun(&self) -> bool {
        &&& self.seen@ == activated_all(Seq::empty(), self.seeds@)
        &&& self.seeds@.len() == 0 ==> self.rounds_left == 0
        &&& self.wave@ == ids_above(self.seeds@, self.tau)
        &&& self.at == 0
        &&& self.edge == WaveEdge::Reinforces
        &&& self.arrivals@ == Seq::<(u64, Double)>::empty()
    }

    /// Begins a wave from the memories of a recall. It starts at those above the
    /// threshold.
    pub fn begin(seeds: Vec<(u64, Double)>, tau: Double, max_iterations: usize) -> (r: WaveRun)
        ensures
            r.valid(),
            r.begun(),
            r.seeds == seeds,
            r.seen@ == activated_all(Seq::empty(), seeds@),
            r.tau == tau,
            r.rounds_left == if seeds@.len() == 0 {
                0
            } else {
                max_iterations
            },
            r.wave@ == ids_above(seeds@, tau),
            r.at == 0,
            r.edge == WaveEdge::Reinforces,
            r.arrivals@ == Seq::<(u64, Double)>::empty(),
    {
        let mut seen: Vec<(u64, Double)> = Vec::new();
        let mut wave: Vec<u64> = Vec::new();
        let mut i: usize = 0;
        assert(activated_all(Seq::empty(), seeds@.take(0)) =~= seen@);
        while i < seeds.len()
            invariant
                i <= seeds@.len(),
                ids_differ(seen@),
                seen@ == activated_all(Seq::empty(), seeds@.take(i as int)),
                wave@ == ids_above(seeds@.take(i as int), tau),
                forall|id: u64| #[trigger]
                    is_seen(seeds@.take(i as int), id) == is_seen(seen@, id),
                forall|id: u64| #[trigger]
                    is_seen(seeds@.take(i as int), id) ==> activation_of(seen@, id)
                        == activation_of(seeds@.take(i as int), id),
            decreases seeds@.len() - i,
        {
            let (id, activation) = seeds[i];
            let ghost before = seen@;
            proof {
                assert(seeds@.take(i + 1).drop_last() =~= seeds@.take(i as int));
                assert(seeds@.take(i + 1).last() == (id, activation));
                lemma_activated(before, id, activation);
                assert forall|other: u64| other != id implies #[trigger] is_seen(
                    seeds@.take(i + 1),
                    other,
                ) == is_seen(seeds@.take(i as int), other) && activation_of(
                    seeds@.take(i + 1),
                    other,
                ) == activation_of(seeds@.take(i as int), other) by {
                    lemma_place(seeds@.take(i as int), other);
                }
            }
            WaveRun::activate(&mut seen, id, activation);
            if tau.less(activation) {
                wave.push(id);
            }
            i += 1;
            assert forall|other: u64| #[trigger]
                is_seen(seeds@.take(i as int), other) implies activation_of(seen@, other)
                == activation_of(seeds@.take(i as int), other) by {
                if other != id {
                    assert(is_seen(seen@, other) == is_seen(before, other));
                    assert(is_seen(seeds@.take(i - 1), other));
                }
            }
        }
        assert(seeds@.take(i as int) =~= seeds@);
        let rounds_left: usize = if seeds.len() == 0 {
            0
        } else {
            max_iterations
        };
        WaveRun {
            seeds,
            seen,
            tau,
            rounds_left,
            wave,
            at: 0,
            edge: WaveEdge::Reinforces,
            arrivals: Vec::new(),
        }
    }

    /// What to do next.
    pub fn request(&self) -> (r: WaveRequest)
        requires
            self.valid(),
        ensures
            r == self.asked(),
    {
        if self.rounds_left == 0 {
            return WaveRequest::Finish;
        }
        if self.at < self.wave.len() {
            let engram_id: u64 = self.wave[self.at];
            let activation = match WaveRun::find(&self.seen, engram_id) {
                Some(k) => self.seen[k].1,
                None => Double { bits: 0 },
            };
            if !activation.at_most(self.tau) {
                return WaveRequest::Spread { engram_id, edge: self.edge, activation };
            }
        }
        WaveRequest::MoveOn
    }

    /// `next` is this wave with the neighbours of the memory at hand and the
    /// activation passed on to them.
    pub open spec fn spread_to(&self, neighbors: Seq<u64>, passed: Double, next: WaveRun) -> bool {
        &&& next.seeds == self.seeds
        &&& next.seen == self.seen
        &&& next.tau == self.tau
        &&& next.rounds_left == self.rounds_left
        &&& next.wave == self.wave
        &&& next.arrivals@ == self.arrivals@ + arrivals_at(self.seen@, neighbors, passed, self.tau)
        &&& match self.edge {
            WaveEdge::Reinforces => next.at == self.at && next.edge == WaveEdge::TemporalSequence,
            WaveEdge::TemporalSequence => next.at == self.at && next.edge == WaveEdge::Contradicts,
            WaveEdge::Contradicts => next.at == self.at + 1 && next.edge == WaveEdge::Reinforces,
        }
    }

    /// Takes the neighbours of the memory at hand and the activation passed on
    /// to them.
    pub fn spread(self, neighbors: &Vec<u64>, passed: Double) -> (r: WaveRun)
        requires
            self.valid(),
            self.asked() is Spread,
        ensures
            r.valid(),
            self.spread_to(neighbors@, passed, r),
            forall|j: int|
                0 <= j < neighbors@.len() && self.tau.lt(passed) && !is_seen(
                    self.seen@,
                    #[trigger] neighbors@[j],
                ) ==> r.arrivals@.contains((neighbors@[j], passed)),
    {
        proof {
            if self.tau.lt(passed) {
                assert forall|j: int|
                    0 <= j < neighbors@.len() && !is_seen(
                        self.seen@,
                        #[trigger] neighbors@[j],
                    ) implies arrivals_at(self.seen@, neighbors@, passed, self.tau).contains(
                    (neighbors@[j], passed),
                ) by {
                    lemma_place(self.seen@, neighbors@[j]);
                    every_neighbour_arrives(self.seen@, neighbors@, passed, self.tau, j);
                }
            }
        }
        assert(self.wave@.len() == self.wave.len());
        let ghost before = self.arrivals@;
        let ghost seen = self.seen@;
        let mut next = self;
        let mut i: usize = 0;
        assert(next.arrivals@ =~= before + arrivals_at(seen, neighbors@.take(0), passed, next.tau));
        while i < neighbors.len()
            invariant
                i <= neighbors@.len(),
                next.seeds == self.seeds,
                next.seen == self.seen,
                next.tau == self.tau,
                next.rounds_left == self.rounds_left,
                next.wave == self.wave,
                next.at == self.at,
                next.edge == self.edge,
                seen == self.seen@,
                next.arrivals@ == before + arrivals_at(
                    seen,
                    neighbors@.take(i as int),
                    passed,
                    self.tau,
                ),
                forall|k: int|
                    0 <= k < next.arrivals@.len() ==> !is_seen(seen, (
                    #[trigger] next.arrivals@[k]).0) && self.tau.lt(next.arrivals@[k].1),
            decreases neighbors@.len() - i,
        {
            let id: u64 = neighbors[i];
            let ghost so_far = arrivals_at(seen, neighbors@.take(i as int), passed, self.tau);
            proof {
                assert(neighbors@.take(i + 1).drop_last() =~= neighbors@.take(i as int));
                assert(neighbors@.take(i + 1).last() == id);
            }
            let known = WaveRun::find(&next.seen, id).is_some();
            if !known && next.tau.less(passed) {
                next.arrivals.push((id, passed));
                assert(next.arrivals@ =~= before + so_far.push((id, passed)));
            }
            i += 1;
        }
        assert(neighbors@.take(i as int) =~= neighbors@);
        proof {
            let added = arrivals_at(seen, neighbors@, passed, self.tau);
            assert forall|a: (u64, Double)| #[trigger] added.contains(a) implies (before
                + added).contains(a) by {
                let k = choose|k: int| 0 <= k < added.len() && added[k] == a;
                assert((before + added)[before.len() + k] == a);
            }
        }
        match next.edge {
            WaveEdge::Reinforces => {
                next.edge = WaveEdge::TemporalSequence;
            },
            WaveEdge::TemporalSequence => {
                next.edge = WaveEdge::Contradicts;
            },
            WaveEdge::Contradicts => {
                next.edge = WaveEdge::Reinforces;
                next.at = next.at + 1;
            },
        }
        next
    }

    /// `next` is this wave past a memory that passes nothing on, or in its next
    /// round.
    pub open spec fn moved(&self, next: WaveRun) -> bool {
        &&& next.seeds == self.seeds
        &&& next.tau == self.tau
        &&& next.edge == WaveEdge::Reinforces
        &&& if self.at < self.wave@.len() {
            next.at == self.at + 1 && next.seen == self.seen && next.rounds_left
                == self.rounds_left && next.wave == self.wave && next.arrivals == self.arrivals
        } else if self.arrivals@.len() == 0 {
            next.rounds_left == 0 && next.seen == self.seen && next.arrivals == self.arrivals
        } else {
            next.at == 0 && next.rounds_left == self.rounds_left - 1 && next.seen@
                == activated_all(self.seen@, self.arrivals@) && next.wave@ == ids_in(
                self.arrivals@,
            ) && next.arrivals@.len() == 0
        }
    }

    /// Moves past a memory that passes nothing on, or from one round to the
    /// next. A round that reached nothing is the last.
    pub fn move_on(self) -> (r: WaveRun)
        requires
            self.valid(),
            self.asked() == WaveRequest::MoveOn,
        ensures
            r.valid(),
            self.moved(r),
            forall|id: u64| #[trigger]
                is_seen(self.seen@, id) ==> is_seen(r.seen@, id) && activation_of(r.seen@, id)
                    == activation_of(self.seen@, id),
    {
        assert(self.wave@.len() == self.wave.len());
        let ghost before = self.seen@;
        let mut next = self;
        next.edge = WaveEdge::Reinforces;
        if next.at < next.wave.len() {
            next.at = next.at + 1;
            return next;
        }
        if next.arrivals.len() == 0 {
            next.rounds_left = 0;
            return next;
        }
        let mut wave: Vec<u64> = Vec::new();
        let mut i: usize = 0;
        let ghost arrivals = next.arrivals@;
        assert(next.seen@ =~= activated_all(before, arrivals.take(0)));
        while i < next.arrivals.len()
            invariant
                next.seeds == self.seeds,
                next.tau == self.tau,
                next.edge == WaveEdge::Reinforces,
                next.rounds_left == self.rounds_left,
                next.arrivals@ == arrivals,
                i <= arrivals.len(),
                next.seen@ == activated_all(before, arrivals.take(i as int)),
                wave@ == ids_in(arrivals).take(i as int),
            decreases arrivals.len() - i,
        {
            let (id, activation) = next.arrivals[i];
            proof {
                assert(arrivals.take(i + 1).drop_last() =~= arrivals.take(i as int));
                assert(arrivals.take(i + 1).last() == (id, activation));
            }
            WaveRun::activate(&mut next.seen, id, activation);
            wave.push(id);
            i += 1;
            assert(wave@ =~= ids_in(arrivals).take(i as int));
        }
        proof {
            assert(arrivals.take(i as int) =~= arrivals);
            assert(ids_in(arrivals).take(i as int) =~= ids_in(arrivals));
            lemma_activated_all(before, arrivals, next.tau);
        }
        next.wave = wave;
        next.arrivals = Vec::new();
        next.at = 0;
        next.rounds_left = next.rounds_left - 1;
        next
    }

    /// The memories that the wave reached beyond its seeds, with their
    /// activation.
    pub fn discovered(&self) -> (r: Vec<(u64, Double)>)
        ensures
            r@ == beyond(self.seen@, self.seeds@),
    {
        let mut out: Vec<(u64, Double)> = Vec::new();
        let mut i: usize = 0;
        while i < self.seen.len()
            invariant
                i <= self.seen@.len(),
                out@ == beyond(self.seen@.take(i as int), self.seeds@),
            decreases self.seen@.len() - i,
        {
            assert(self.seen@.take(i + 1).drop_last() =~= self.seen@.take(i as int));
            let (id, activation) = self.seen[i];
            assert(self.seen@.take(i + 1).last() == (id, activation));
            if WaveRun::find(&self.seeds, id).is_none() {
                out.push((id, activation));
            }
            i += 1;
        }
        assert(self.seen@.take(i as int) =~= self.seen@);
        out
    }
}

/// Every neighbour that has no activation yet gets the one passed on, where that is
/// above the threshold.
pub proof fn every_neighbour_arrives(
    seen: Seq<(u64, Double)>,
    neighbors: Seq<u64>,
    passed: Double,
    tau: Double,
    j: int,
)
    requires
        0 <= j < neighbors.len(),
        forall|k: int| 0 <= k < seen.len() ==> (#[trigger] seen[k]).0 != neighbors[j],
        tau.lt(passed),
    ensures
        arrivals_at(seen, neighbors, passed, tau).contains((neighbors[j], passed)),
    decreases neighbors.len(),
{
    let fewer = neighbors.drop_last();
    let before = arrivals_at(seen, fewer, passed, tau);
    let after = arrivals_at(seen, neighbors, passed, tau);
    if j < fewer.len() {
        every_neighbour_arrives(seen, fewer, passed, tau, j);
        let k = choose|k: int| 0 <= k < before.len() && before[k] == (neighbors[j], passed);
        assert(after[k] == before[k]);
    } else {
        lemma_place(seen, neighbors[j]);
        assert(after[before.len() as int] == (neighbors[j], passed));
    }
}

/// What arrives is exactly the activation passed on, at the neighbours that have
/// none yet, in their order; nothing arrives where it is not above the threshold.
pub proof fn arrivals_are_the_new_neighbours(
    seen: Seq<(u64, Double)>,
    neighbors: Seq<u64>,
    passed: Double,
    tau: Double,
)
    ensures
        arrivals_at(seen, neighbors, passed, tau) == if tau.lt(passed) {
            neighbors.filter(
                |id: u64| !seen.map_values(|a: (u64, Double)| a.0).contains(id),
            ).map_values(|id: u64| (id, passed))
        } else {
            Seq::empty()
        },
    decreases neighbors.len(),
{
    reveal(Seq::filter);
    let ids = seen.map_values(|a: (u64, Double)| a.0);
    let new = |id: u64| !seen.map_values(|a: (u64, Double)| a.0).contains(id);
    if neighbors.len() > 0 {
        let id = neighbors.last();
        let fewer = neighbors.drop_last();
        arrivals_are_the_new_neighbours(seen, fewer, passed, tau);
        lemma_seen_ids(seen, id);
        if new(id) {
            assert(fewer.filter(new).push(id).map_values(|id: u64| (id, passed))
                =~= fewer.filter(new).map_values(|id: u64| (id, passed)).push((id, passed)));
        }
    } else {
        assert(neighbors.filter(new).map_values(|id: u64| (id, passed)) =~= Seq::empty());
    }
}

proof fn lemma_seen_ids(seen: Seq<(u64, Double)>, id: u64)
    ensures
        is_seen(seen, id) <==> seen.map_values(|a: (u64, Double)| a.0).contains(id),
{
    let ids = seen.map_values(|a: (u64, Double)| a.0);
    lemma_place(seen, id);
    match place_of(seen, id) {
        Some(k) => {
            assert(ids[k] == id);
        },
        None => {
            if ids.contains(id) {
                let k = choose|k: int| 0 <= k < ids.len() && ids[k] == id;
                assert(seen[k].0 == id);
            }
        },
    }
}

/// A wave starts at exactly the seeds above its threshold, in their order.
pub proof fn waves_start_above_the_threshold(seeds: Seq<(u64, Double)>, tau: Double)
    ensures
        ids_above(seeds, tau) == seeds.filter(|a: (u64, Double)| tau.lt(a.1)).map_values(
            |a: (u64, Double)| a.0,
        ),
    decreases seeds.len(),
{
    reveal(Seq::filter);
    let above = |a: (u64, Double)| tau.lt(a.1);
    let id = |a: (u64, Double)| a.0;
    if seeds.len() > 0 {
        let fewer = seeds.drop_last();
        waves_start_above_the_threshold(fewer, tau);
        assert(fewer.filter(above).push(seeds.last()).map_values(id) =~= fewer.filter(
            above,
        ).map_values(id).push(seeds.last().0));
    } else {
        assert(seeds.filter(above).map_values(id) =~= Seq::empty());
    }
}

/// What a wave discovers is exactly what it reached beyond its seeds, in order.
pub proof fn discoveries_are_no_seeds(seen: Seq<(u64, Double)>, seeds: Seq<(u64, Double)>)
    ensures
        beyond(seen, seeds) == seen.filter(
            |a: (u64, Double)| !seeds.map_values(|s: (u64, Double)| s.0).contains(a.0),
        ),
    decreases seen.len(),
{
    reveal(Seq::filter);
    if seen.len() > 0 {
        discoveries_are_no_seeds(seen.drop_last(), seeds);
        lemma_seen_ids(seeds, seen.last().0);
    }
}

/// A new activation replaces the one of its memory, or joins the others, which
/// stay as they are.
pub proof fn activation_is_per_memory(
    seen: Seq<(u64, Double)>,
    id: u64,
    activation: Double,
    other: (u64, Double),
)
    requires
        ids_differ(seen),
    ensures
        activated(seen, id, activation).contains(other) <==> if other.0 == id {
            other.1 == activation
        } else {
            seen.contains(other)
        },
{
    let after = activated(seen, id, activation);
    lemma_place(seen, id);
    match place_of(seen, id) {
        Some(k) => {
            assert(after[k] == (id, activation));
            if seen.contains(other) {
                let h = choose|h: int| 0 <= h < seen.len() && seen[h] == other;
                if h != k {
                    assert(after[h] == other);
                }
            }
            if after.contains(other) {
                let h = choose|h: int| 0 <= h < after.len() && after[h] == other;
                if h != k {
                    assert(seen[h] == other);
                    if h < k {
                        assert(seen[h].0 != seen[k].0);
                    } else {
                        assert(seen[k].0 != seen[h].0);
                    }
                }
            }
        },
        None => {
            assert(after[seen.len() as int] == (id, activation));
            if seen.contains(other) {
                let h = choose|h: int| 0 <= h < seen.len() && seen[h] == other;
                assert(after[h] == other);
            }
            if after.contains(other) {
                let h = choose|h: int| 0 <= h < after.len() && after[h] == other;
                if h < seen.len() {
                    assert(seen[h] == other);
                }
            }
        },
    }
}

/// Whatever a wave discovers is above the threshold and none of its seeds.
pub proof fn discoveries_clear_the_threshold(run: WaveRun, k: int)
    requires
        run.valid(),
        0 <= k < beyond(run.seen@, run.seeds@).len(),
    ensures
        run.tau.lt(beyond(run.seen@, run.seeds@)[k].1),
        !is_seen(run.seeds@, beyond(run.seen@, run.seeds@)[k].0),
{
    let i = lemma_beyond(run.seen@, run.seeds@, k);
    lemma_place_is(run.seen@, run.seen@[i].0, i);
    assert(is_seen(run.seen@, run.seen@[i].0));
}

pub(crate) proof fn lemma_beyond(seen: Seq<(u64, Double)>, seeds: Seq<(u64, Double)>, k: int) -> (i: int)
    requires
        0 <= k < beyond(seen, seeds).len(),
    ensures
        0 <= i < seen.len(),
        beyond(seen, seeds)[k] == seen[i],
        !is_seen(seeds, seen[i].0),
    decreases seen.len(),
{
    let fewer = seen.drop_last();
    if k < beyond(fewer, seeds).len() {
        lemma_beyond(fewer, seeds, k)
    } else {
        seen.len() - 1
    }
}

/// What the store holds of a memory.
#[derive(Debug)]
pub struct StoredEngram {
    pub episode_raw: String,
    pub emotional_charge: Double,
    pub importance_score: Double,
}

/// A memory that only the wave reached, with its attenuated score and its row of
/// the store, where that could be read.
#[derive(Debug)]
pub struct Discovery {
    pub engram_id: u64,
    pub score: Double,
    pub row: Option<StoredEngram>,
}

/// `r` is the entry that a recall shows for a memory that only the wave reached:
/// its own text, charge and importance with the score of the wave.
pub open spec fn is_wave_result(r: ResonanceResult, id: u64, score: Double, row: StoredEngram) -> bool {
    &&& r.engram_id == id
    &&& r.resonance_score == score
    &&& r.episode_raw@ == row.episode_raw@
    &&& r.emotional_charge == row.emotional_charge
    &&& r.importance_score == row.importance_score
    &&& r.identity_alignment.bits == 0x3FF0_0000_0000_0000
    &&& r.semantic_sim.bits == 0x3FE0_0000_0000_0000
    &&& r.recency_weight.bits == 0x3FF0_0000_0000_0000
    &&& r.reward_score.bits == 0
    &&& r.reward_factor.bits == 0x3FF0_0000_0000_0000
}

/// The entry for a memory that only the wave reached, with its score and its row
/// of the store.
pub fn wave_result(id: u64, score: Double, row: &StoredEngram) -> (r: ResonanceResult)
    ensures
        is_wave_result(r, id, score, *row),
{
    ResonanceResult {
        engram_id: id,
        resonance_score: score,
        episode_raw: row.episode_raw.clone(),
        emotional_charge: row.emotional_charge,
        importance_score: row.importance_score,
        identity_alignment: Double { bits: 0x3FF0_0000_0000_0000 },
        semantic_sim: Double { bits: 0x3FE0_0000_0000_0000 },
        recency_weight: Double { bits: 0x3FF0_0000_0000_0000 },
        reward_score: Double { bits: 0 },
        reward_factor: Double { bits: 0x3FF0_0000_0000_0000 },
    }
}

/// The discoveries whose rows could be read, in order.
pub open spec fn readable(discovered: Seq<Discovery>) -> Seq<Discovery>
    decreases discovered.len(),
{
    if discovered.len() == 0 {
        Seq::empty()
    } else {
        let before = readable(discovered.drop_last());
        if discovered.last().row is Some {
            before.push(discovered.last())
        } else {
            before
        }
    }
}

/// `all` is the seeds followed by one entry for each of the discoveries, all of
/// which have rows.
pub open spec fn is_merged(
    seeds: Seq<ResonanceResult>,
    discovered: Seq<Discovery>,
    all: Seq<ResonanceResult>,
) -> bool {
    &&& all.len() == seeds.len() + discovered.len()
    &&& forall|k: int| 0 <= k < seeds.len() ==> #[trigger] all[k] == seeds[k]
    &&& forall|k: int|
        0 <= k < discovered.len() ==> (#[trigger] discovered[k]).row is Some && is_wave_result(
            all[seeds.len() + k],
            discovered[k].engram_id,
            discovered[k].score,
            discovered[k].row->0,
        )
}

/// The recall with the discoveries of its wave merged in, ranked and cut to
/// `limit`. A discovery whose row could not be read is left out.
pub fn merge_wave(seeds: Vec<ResonanceResult>, discovered: &Vec<Discovery>, limit: usize) -> (r: Vec<
    ResonanceResult,
>)
    ensures
        exists|all: Seq<ResonanceResult>| #[trigger]
            is_merged(seeds@, readable(discovered@), all) && is_top(all, limit as nat, r@),
        r@.len() <= limit,
{
    let ghost start = seeds@;
    let mut all = seeds;
    let mut i: usize = 0;
    assert(readable(discovered@.take(0)) =~= Seq::empty());
    while i < discovered.len()
        invariant
            i <= discovered@.len(),
            is_merged(start, readable(discovered@.take(i as int)), all@),
        decreases discovered@.len() - i,
    {
        let ghost before = all@;
        let ghost earlier = readable(discovered@.take(i as int));
        proof {
            assert(discovered@.take(i + 1).drop_last() =~= discovered@.take(i as int));
            assert(discovered@.take(i + 1).last() == discovered@[i as int]);
        }
        if let Some(row) = &discovered[i].row {
            all.push(wave_result(discovered[i].engram_id, discovered[i].score, row));
            proof {
                let now = readable(discovered@.take(i + 1));
                assert(now =~= earlier.push(discovered@[i as int]));
                assert forall|k: int| 0 <= k < start.len() implies #[trigger] all@[k]
                    == start[k] by {
                    assert(before[k] == start[k]);
                }
                assert forall|k: int| 0 <= k < now.len() implies (#[trigger] now[k]).row is Some
                    && is_wave_result(
                    all@[start.len() + k],
                    now[k].engram_id,
                    now[k].score,
                    now[k].row->0,
                ) by {
                    if k < earlier.len() {
                        assert(earlier[k] == now[k]);
                        assert(before[start.len() + k] == all@[start.len() + k]);
                    }
                }
            }
        }
        i += 1;
    }
    assert(discovered@.take(i as int) =~= discovered@);
    assert(is_merged(start, readable(discovered@), all@));
    top_results(all, limit)
}

proof fn lemma_readable(discovered: Seq<Discovery>, k: int) -> (i: int)
    requires
        0 <= k < readable(discovered).len(),
    ensures
        0 <= i < discovered.len(),
        discovered[i] == readable(discovered)[k],
    decreases discovered.len(),
{
    let fewer = discovered.drop_last();
    if k < readable(fewer).len() {
        lemma_readable(fewer, k)
    } else {
        discovered.len() - 1
    }
}

/// Whatever a recall with a wave shows is real: a memory of the recall itself, or
/// one that the wave discovered, with the text, the charge and the importance that
/// the store holds of it.
pub proof fn merged_memories_are_real(
    seeds: Seq<ResonanceResult>,
    discovered: Seq<Discovery>,
    all: Seq<ResonanceResult>,
    limit: nat,
    shown: Seq<ResonanceResult>,
    k: int,
)
    requires
        is_merged(seeds, readable(discovered), all),
        is_top(all, limit, shown),
        0 <= k < shown.len(),
    ensures
        seeds.contains(shown[k]) || exists|i: int|
            0 <= i < discovered.len() && (#[trigger] discovered[i]).row is Some && is_wave_result(
                shown[k],
                discovered[i].engram_id,
                discovered[i].score,
                discovered[i].row->0,
            ),
{
    let sorted = choose|sorted: Seq<ResonanceResult>|
        #![trigger is_ranked(all, score_keys(all), sorted)]
        is_ranked(all, score_keys(all), sorted) && shown == at_most(sorted, limit);
    let order = choose|order: Seq<int>| #[trigger]
        is_ranking(score_keys(all), order) && is_reordered(all, order, sorted);
    assert(shown[k] == sorted[k]);
    let from = order[k];
    assert(sorted[k] == all[from]);
    if from < seeds.len() {
        assert(all[from] == seeds[from]);
    } else {
        let found = readable(discovered);
        let i = lemma_readable(discovered, from - seeds.len());
        assert(found[from - seeds.len()].row is Some);
    }
}

/// The discoveries that can be shown are those with a row, in order.
pub proof fn readable_discoveries_have_rows(discovered: Seq<Discovery>)
    ensures
        readable(discovered) == discovered.filter(|d: Discovery| d.row is Some),
    decreases discovered.len(),
{
    reveal(Seq::filter);
    if discovered.len() > 0 {
        readable_discoveries_have_rows(discovered.drop_last());
    }
}

proof fn lemma_readable_place(discovered: Seq<Discovery>, i: int) -> (k: int)
    requires
        0 <= i < discovered.len(),
        discovered[i].row is Some,
    ensures
        0 <= k < readable(discovered).len(),
        readable(discovered)[k] == discovered[i],
    decreases discovered.len(),
{
    let fewer = discovered.drop_last();
    if i < fewer.len() {
        let k = lemma_readable_place(fewer, i);
        k
    } else {
        readable(fewer).len() as int
    }
}

proof fn lemma_all_shown(
    all: Seq<ResonanceResult>,
    limit: nat,
    shown: Seq<ResonanceResult>,
    j: int,
)
    requires
        is_top(all, limit, shown),
        all.len() <= limit,
        0 <= j < all.len(),
    ensures
        shown.contains(all[j]),
{
    let sorted = choose|sorted: Seq<ResonanceResult>|
        #![trigger is_ranked(all, score_keys(all), sorted)]
        is_ranked(all, score_keys(all), sorted) && shown == at_most(sorted, limit);
    ranking_keeps_items(all, score_keys(all), sorted);
    broadcast use vstd::seq_lib::group_to_multiset_ensures;

    assert(all.to_multiset().count(all[j]) > 0);
    assert(sorted.contains(all[j]));
    assert(shown =~= sorted);
}

/// Where the limit leaves room, a recall with a wave shows every memory of the
/// recall itself, and every discovery whose row could be read under its own id,
/// with the score of the wave and its own text.
pub proof fn waves_take_nothing_away(
    seeds: Seq<ResonanceResult>,
    discovered: Seq<Discovery>,
    all: Seq<ResonanceResult>,
    limit: nat,
    shown: Seq<ResonanceResult>,
)
    requires
        is_merged(seeds, readable(discovered), all),
        is_top(all, limit, shown),
        all.len() <= limit,
    ensures
        forall|i: int| 0 <= i < seeds.len() ==> shown.contains(#[trigger] seeds[i]),
        forall|i: int|
            0 <= i < discovered.len() && (#[trigger] discovered[i]).row is Some ==> exists|r:
                ResonanceResult|
                #![trigger shown.contains(r)]
                shown.contains(r) && r.engram_id == discovered[i].engram_id && r.resonance_score
                    == discovered[i].score && r.episode_raw@ == discovered[i].row->0.episode_raw@,
{
    assert forall|i: int| 0 <= i < seeds.len() implies shown.contains(#[trigger] seeds[i]) by {
        assert(all[i] == seeds[i]);
        lemma_all_shown(all, limit, shown, i);
    }
    assert forall|i: int|
        0 <= i < discovered.len() && (#[trigger] discovered[i]).row is Some implies exists|r:
            ResonanceResult|
            #![trigger shown.contains(r)]
            shown.contains(r) && r.engram_id == discovered[i].engram_id && r.resonance_score
                == discovered[i].score && r.episode_raw@ == discovered[i].row->0.episode_raw@ by {
        let k = lemma_readable_place(discovered, i);
        let found = readable(discovered);
        assert(found[k].row is Some);
        let r = all[seeds.len() + k];
        lemma_all_shown(all, limit, shown, seeds.len() + k);
        assert(shown.contains(r));
    }
}

/// A neighbour counts however its id is written: as a number, as the digits of
/// one, or as a node that carries it under `$id` or `id`, `$id` first.
pub proof fn neighbours_are_read_in_every_form(n: u64, v: JsonView, w: JsonView)
    ensures
        loose_id(JsonView::Number(JsonNumber::Unsigned(n))) == Some(n),
        loose_id(JsonView::Text(decimal(n as nat))) == Some(n),
        loose_id(JsonView::Object(seq![("id"@, v)])) == loose_id(v),
        loose_id(JsonView::Object(seq![("$id"@, v), ("id"@, w)])) == loose_id(v),
        loose_id(JsonView::Null) is None,
{
    decimal_reads_back(n as nat, u64::MAX as nat);
    reveal_strlit("id");
    reveal_strlit("$id");
    assert("id"@.len() == 2 && "$id"@.len() == 3);
    let one = seq![("id"@, v)];
    assert(one.last() == ("id"@, v));
    assert(one.drop_last().len() == 0);
    reveal_with_fuel(lookup, 3);
    let two = seq![("$id"@, v), ("id"@, w)];
    assert(two.last() == ("id"@, w));
    assert(two.drop_last().last() == ("$id"@, v));
}

/// The neighbours of a reply are the values of its list that write an id, in order
/// and each under its own.
pub proof fn every_written_neighbour_is_read(items: Seq<JsonView>)
    ensures
        loose_ids(items) == items.filter(|j: JsonView| loose_id(j) is Some).map_values(
            |j: JsonView| loose_id(j)->0,
        ),
    decreases items.len(),
{
    reveal(Seq::filter);
    let keeps = |j: JsonView| loose_id(j) is Some;
    let reads = |j: JsonView| loose_id(j)->0;
    if items.len() > 0 {
        every_written_neighbour_is_read(items.drop_last());
        assert(loose_ids(items) =~= items.filter(keeps).map_values(reads));
    } else {
        assert(loose_ids(items) =~= items.filter(keeps).map_values(reads));
    }
}

/// A number that is not negative is an id, cut to a whole one, and any other is
/// none.
pub proof fn numbers_below_zero_are_no_ids(n: u64, i: i64, d: Double)
    ensures
        number_id(JsonNumber::Unsigned(n)) == Some(n),
        number_id(JsonNumber::Signed(i)) is Some <==> i >= 0,
        i >= 0 ==> number_id(JsonNumber::Signed(i)) == Some(i as u64),
        d.lt(Double { bits: 0 }) || d.nan() ==> number_id(JsonNumber::Float(d)) is None,
        (Double { bits: 0 }).le(d) ==> number_id(JsonNumber::Float(d)) == Some(d.as_u64()),
{
}

/// What only the wave reached is shown with the traits of its row, and plainly with
/// full alignment, middling similarity, full recency and no reward.
pub proof fn discoveries_are_shown_plainly(
    r: ResonanceResult,
    id: u64,
    score: Double,
    row: StoredEngram,
)
    requires
        is_wave_result(r, id, score, row),
    ensures
        r.engram_id == id,
        r.resonance_score == score,
        r.episode_raw@ == row.episode_raw@,
        r.emotional_charge == row.emotional_charge,
        r.importance_score == row.importance_score,
        r.identity_alignment == (Double { bits: 0x3FF0_0000_0000_0000 }),
        r.semantic_sim == (Double { bits: 0x3FE0_0000_0000_0000 }),
        r.recency_weight == (Double { bits: 0x3FF0_0000_0000_0000 }),
        r.reward_score == (Double { bits: 0 }),
        r.reward_factor == (Double { bits: 0x3FF0_0000_0000_0000 }),
{
}

/// A wave begins with nothing reached, and with what reinforces the first of the
/// memories it starts from.
pub proof fn waves_begin_with_reinforcement(run: WaveRun)
    requires
        run.begun(),
    ensures
        run.edge is Reinforces,
        run.at == 0,
        run.arrivals@.len() == 0,
        run.asked() matches WaveRequest::Spread { edge, .. } ==> edge is Reinforces,
{
}

} // verus!
