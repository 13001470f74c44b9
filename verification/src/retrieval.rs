//! Recall: the relevance floor, the ranking, the ledger of recalls that may be
//! rewarded, and the wave of spreading activation.

use crate::double::Double;
use crate::json::{field, i64_of, Json, JsonNumber, JsonView};
use crate::ranking::{is_ranked, precedes, rank_by};
use crate::types::ResonanceResult;
use vstd::prelude::*;

verus! {

/// The ranking keys of results.
pub open spec fn score_keys(results: Seq<ResonanceResult>) -> Seq<i128> {
    results.map_values(|r: ResonanceResult| r.resonance_score.rank() as i128)
}

/// The first `limit` of `s`.
pub open spec fn at_most<T>(s: Seq<T>, limit: nat) -> Seq<T> {
    if s.len() <= limit {
        s
    } else {
        s.take(limit as int)
    }
}

/// `out` is `results`, highest resonance first, cut to `limit`.
pub open spec fn is_top(
    results: Seq<ResonanceResult>,
    limit: nat,
    out: Seq<ResonanceResult>,
) -> bool {
    exists|sorted: Seq<ResonanceResult>|
        #![trigger is_ranked(results, score_keys(results), sorted)]
        is_ranked(results, score_keys(results), sorted) && out == at_most(sorted, limit)
}

/// The results with the highest resonance first, cut to `limit`.
pub fn top_results(results: Vec<ResonanceResult>, limit: usize) -> (r: Vec<ResonanceResult>)
    ensures
        is_top(results@, limit as nat, r@),
        r@.len() <= limit,
{
    let mut keys: Vec<i128> = Vec::new();
    let mut i: usize = 0;
    while i < results.len()
        invariant
            i <= results@.len(),
            keys@.len() == i,
            forall|j: int| 0 <= j < i ==> keys@[j] == results@[j].resonance_score.rank(),
        decreases results@.len() - i,
    {
        keys.push(results[i].resonance_score.key());
        i += 1;
    }
    let ghost all = results@;
    assert(keys@ =~= score_keys(all));
    let mut out = rank_by(results, &keys);
    let ghost sorted = out@;
    out.truncate(limit);
    assert(out@ =~= at_most(sorted, limit as nat));
    assert(is_ranked(all, score_keys(all), sorted));
    out
}

/// In a recall the results come highest resonance first.
pub proof fn recall_is_sorted(
    results: Seq<ResonanceResult>,
    limit: nat,
    out: Seq<ResonanceResult>,
    a: int,
    b: int,
)
    requires
        is_top(results, limit, out),
        0 <= a < b < out.len(),
    ensures
        out[a].resonance_score.rank() >= out[b].resonance_score.rank(),
{
    let keys = score_keys(results);
    let sorted = choose|sorted: Seq<ResonanceResult>|
        #![trigger is_ranked(results, score_keys(results), sorted)]
        is_ranked(results, keys, sorted) && out == at_most(sorted, limit);
    let order = choose|order: Seq<int>| #[trigger]
        crate::ranking::is_ranking(keys, order) && crate::ranking::is_reordered(
            results,
            order,
            sorted,
        );
    assert(crate::ranking::precedes(keys, order[a], order[b]));
    assert(sorted[a] == results[order[a]] && sorted[b] == results[order[b]]);
}

/// How many of the first `n` come before the one at `i`, the largest key first.
pub open spec fn ahead_of(keys: Seq<i128>, i: int, n: int) -> nat
    decreases n,
{
    if n <= 0 {
        0
    } else {
        ahead_of(keys, i, n - 1) + if precedes(keys, n - 1, i) {
            1nat
        } else {
            0nat
        }
    }
}

/// The place of each score among all, the highest first and equal ones in order.
pub fn positions(scores: &Vec<Double>) -> (r: Vec<usize>)
    ensures
        r@.len() == scores@.len(),
        forall|i: int|
            0 <= i < r@.len() ==> #[trigger] r@[i] == ahead_of(
                ranks(scores@),
                i,
                scores@.len() as int,
            ),
{
    let ghost keys = ranks(scores@);
    let mut out: Vec<usize> = Vec::new();
    let mut i: usize = 0;
    while i < scores.len()
        invariant
            i <= scores@.len(),
            out@.len() == i,
            keys == ranks(scores@),
            forall|k: int|
                0 <= k < i ==> #[trigger] out@[k] == ahead_of(keys, k, scores@.len() as int),
        decreases scores@.len() - i,
    {
        let key: i128 = scores[i].key();
        let mut ahead: usize = 0;
        let mut j: usize = 0;
        while j < scores.len()
            invariant
                i < scores@.len(),
                j <= scores@.len(),
                keys == ranks(scores@),
                key == keys[i as int],
                ahead == ahead_of(keys, i as int, j as int),
                ahead <= j,
            decreases scores@.len() - j,
        {
            let other: i128 = scores[j].key();
            if other > key || (other == key && j < i) {
                ahead += 1;
            }
            j += 1;
        }
        out.push(ahead);
        i += 1;
    }
    out
}

/// The ranking keys of scores.
pub open spec fn ranks(scores: Seq<Double>) -> Seq<i128> {
    scores.map_values(|s: Double| s.rank() as i128)
}

/// A hit clears the floors: its effective relevance is not below `min_sim`,
/// unless that floor is switched off, and its resonance is not below
/// `min_score`.
pub open spec fn clears_floor(
    hit: ResonanceResult,
    effective: Double,
    min_sim: Double,
    min_score: Double,
) -> bool {
    &&& min_sim.le(Double { bits: 0 }) || !effective.lt(min_sim)
    &&& !hit.resonance_score.lt(min_score)
}

/// The hits that clear the floors, in order.
pub open spec fn relevant_hits(
    hits: Seq<ResonanceResult>,
    effective: Seq<Double>,
    min_sim: Double,
    min_score: Double,
) -> Seq<ResonanceResult>
    decreases hits.len(),
{
    if hits.len() == 0 {
        Seq::empty()
    } else {
        let before = relevant_hits(hits.drop_last(), effective, min_sim, min_score);
        if clears_floor(hits.last(), effective[hits.len() - 1], min_sim, min_score) {
            before.push(hits.last())
        } else {
            before
        }
    }
}

/// Keeps the hits that clear the floors. `effective` gives the effective
/// relevance of each.
pub fn drop_irrelevant(
    hits: Vec<ResonanceResult>,
    effective: &Vec<Double>,
    min_sim: Double,
    min_score: Double,
) -> (r: Vec<ResonanceResult>)
    requires
        effective@.len() == hits@.len(),
    ensures
        r@ == relevant_hits(hits@, effective@, min_sim, min_score),
{
    let ghost all = hits@;
    let mut rest = hits;
    let mut kept: Vec<ResonanceResult> = Vec::new();
    let off = min_sim.at_most(Double { bits: 0 });
    proof {
        assert(all.take(all.len() as int) =~= all);
        assert(relevant_hits(all, effective@, min_sim, min_score) + kept@ =~= relevant_hits(
            all,
            effective@,
            min_sim,
            min_score,
        ));
    }
    // The hits are taken from the end, each kept one going to the front.
    while rest.len() > 0
        invariant
            rest@.len() <= all.len(),
            effective@.len() == all.len(),
            rest@ == all.take(rest@.len() as int),
            off == min_sim.le(Double { bits: 0 }),
            relevant_hits(rest@, effective@, min_sim, min_score) + kept@ == relevant_hits(
                all,
                effective@,
                min_sim,
                min_score,
            ),
        decreases rest@.len(),
    {
        let i: usize = rest.len() - 1;
        let ghost before = rest@;
        let ghost old_kept = kept@;
        let hit = rest.pop().unwrap();
        assert(rest@ =~= before.drop_last());
        assert(rest@ =~= all.take(i as int));
        let clears = (off || !effective[i].less(min_sim)) && !hit.resonance_score.less(min_score);
        if clears {
            kept.insert(0, hit);
            let ghost fewer = relevant_hits(rest@, effective@, min_sim, min_score);
            assert(fewer.push(hit) + old_kept =~= fewer + kept@);
        }
    }
    assert(relevant_hits(rest@, effective@, min_sim, min_score) + kept@ =~= kept@);
    kept
}

/// Whatever a recall shows cleared the floors.
pub proof fn shown_hits_are_relevant(
    hits: Seq<ResonanceResult>,
    effective: Seq<Double>,
    min_sim: Double,
    min_score: Double,
    k: int,
)
    requires
        0 <= k < relevant_hits(hits, effective, min_sim, min_score).len(),
    ensures
        exists|i: int|
            #![trigger hits[i]]
            0 <= i < hits.len() && relevant_hits(hits, effective, min_sim, min_score)[k] == hits[i]
                && clears_floor(hits[i], effective[i], min_sim, min_score),
    decreases hits.len(),
{
    let fewer = hits.drop_last();
    let before = relevant_hits(fewer, effective, min_sim, min_score);
    if k < before.len() {
        shown_hits_are_relevant(fewer, effective, min_sim, min_score, k);
        let i = choose|i: int|
            #![trigger fewer[i]]
            0 <= i < fewer.len() && before[k] == fewer[i] && clears_floor(
                fewer[i],
                effective[i],
                min_sim,
                min_score,
            );
        assert(hits[i] == fewer[i]);
    } else {
        assert(hits[hits.len() - 1] == hits.last());
    }
}

/// How many candidates a search asks for.
pub fn fetch_limit(limit: usize) -> (r: i64)
    ensures
        r == if limit <= i64::MAX {
            limit as int
        } else {
            i64::MAX as int
        },
{
    if limit as u64 <= i64::MAX as u64 {
        limit as i64
    } else {
        i64::MAX
    }
}

/// The activation count that a reply to a read carries; 0 where it carries none.
pub open spec fn activation_in(reply: JsonView) -> i64 {
    match field(reply, "engram"@) {
        Some(JsonView::Array(rows)) => if rows.len() > 0 {
            match field(rows[0], "activation_count"@) {
                Some(n) => match i64_of(n) {
                    Some(v) => v,
                    None => 0,
                },
                None => 0,
            }
        } else {
            0
        },
        _ => 0,
    }
}

/// The activation count to store for an engram that was recalled once more.
pub fn next_activation(reply: &Json) -> (r: i64)
    ensures
        r == if activation_in(reply@) < i64::MAX {
            activation_in(reply@) + 1
        } else {
            i64::MAX as int
        },
{
    let mut count: i64 = 0;
    if let Some(rows) = reply.get("engram") {
        if let Some(rows) = rows.as_array() {
            if rows.len() > 0 {
                if let Some(n) = rows[0].get("activation_count") {
                    if let Some(v) = n.as_i64() {
                        count = v;
                    }
                }
            }
        }
    }
    if count < i64::MAX {
        count + 1
    } else {
        i64::MAX
    }
}

/// The value and stability of a trait row, where both are numbers.
pub open spec fn trait_numbers(row: JsonView) -> Option<(JsonNumber, JsonNumber)> {
    match (field(row, "value"@), field(row, "stability"@)) {
        (Some(JsonView::Number(v)), Some(JsonView::Number(s))) => Some((v, s)),
        _ => None,
    }
}

/// The usable traits among the rows, in order.
pub open spec fn usable_traits(rows: Seq<JsonView>) -> Seq<(JsonNumber, JsonNumber)>
    decreases rows.len(),
{
    if rows.len() == 0 {
        Seq::empty()
    } else {
        let before = usable_traits(rows.drop_last());
        match trait_numbers(rows.last()) {
            Some(pair) => before.push(pair),
            None => before,
        }
    }
}

/// The value and stability of each usable trait of a reply. Without any the
/// alignment is neutral.
pub fn identity_traits(reply: &Json) -> (r: Vec<(JsonNumber, JsonNumber)>)
    ensures
        r@ == match field(reply@, "traits"@) {
            Some(JsonView::Array(rows)) => usable_traits(rows),
            _ => Seq::empty(),
        },
{
    let mut out: Vec<(JsonNumber, JsonNumber)> = Vec::new();
    if let Some(rows) = reply.get("traits") {
        if let Some(rows) = rows.as_array() {
            let ghost all = crate::json::items_view(rows@);
            let mut i: usize = 0;
            while i < rows.len()
                invariant
                    i <= rows@.len(),
                    all == crate::json::items_view(rows@),
                    out@ == usable_traits(all.take(i as int)),
                decreases rows@.len() - i,
            {
                assert(all.take(i + 1).drop_last() =~= all.take(i as int));
                assert(all.take(i + 1).last() == rows@[i as int]@);
                let value = rows[i].get("value");
                let stability = rows[i].get("stability");
                if let (Some(value), Some(stability)) = (value, stability) {
                    if let (Some(v), Some(s)) = (value.as_number(), stability.as_number()) {
                        out.push((v, s));
                    }
                }
                i += 1;
            }
            assert(all.take(i as int) =~= all);
        }
    }
    out
}

/// How many recalls the ledger remembers.
pub const LEDGER_CAPACITY: usize = 1024;

/// The recalls that may still be rewarded, oldest first, each with the
/// attributions that it left.
#[derive(Debug)]
pub struct RecallLedger {
    pub entries: Vec<(u64, Vec<Double>)>,
    pub next_recall_id: u64,
    pub last_attributions: Vec<Double>,
}

/// The entries of a ledger by value.
pub open spec fn ledger_view(entries: Seq<(u64, Vec<Double>)>) -> Seq<(u64, Seq<Double>)> {
    entries.map_values(|e: (u64, Vec<Double>)| (e.0, e.1@))
}

/// The attributions kept under an id.
pub open spec fn kept_under(entries: Seq<(u64, Vec<Double>)>, id: u64) -> Option<Seq<Double>>
    decreases entries.len(),
{
    if entries.len() == 0 {
        None
    } else if entries.last().0 == id {
        Some(entries.last().1@)
    } else {
        kept_under(entries.drop_last(), id)
    }
}

/// The entries without the one under `id`.
pub open spec fn without_id<T>(entries: Seq<(u64, T)>, id: u64) -> Seq<(u64, T)>
    decreases entries.len(),
{
    if entries.len() == 0 {
        Seq::empty()
    } else if entries.last().0 == id {
        entries.drop_last()
    } else {
        without_id(entries.drop_last(), id).push(entries.last())
    }
}

/// The entries after a recall was entered under `id`: beyond the capacity the
/// oldest goes.
pub open spec fn entered<T>(entries: Seq<(u64, T)>, id: u64, attributions: T) -> Seq<(u64, T)> {
    let added = without_id(entries, id).push((id, attributions));
    if added.len() > LEDGER_CAPACITY {
        added.skip(1)
    } else {
        added
    }
}

/// The id after `id`; after the last one comes 0.
pub open spec fn id_after(id: u64) -> u64 {
    if id < u64::MAX {
        (id + 1) as u64
    } else {
        0
    }
}

/// What a reward is applied to.
#[derive(Debug)]
pub struct Redeemed {
    pub attributions: Vec<Double>,
    /// The ledger held the recall.
    pub hit: bool,
}

impl RecallLedger {
    /// No id stands twice, and the ledger is within its capacity.
    pub open spec fn valid(&self) -> bool {
        &&& self.entries@.len() <= LEDGER_CAPACITY
        &&& forall|a: int, b: int|
            0 <= a < b < self.entries@.len() ==> (#[trigger] self.entries@[a]).0 != (
            #[trigger] self.entries@[b]).0
    }

    /// A ledger without entries; the first recall gets id 1.
    pub fn new() -> (r: RecallLedger)
        ensures
            r.valid(),
            r.entries@ == Seq::<(u64, Vec<Double>)>::empty(),
            r.next_recall_id == 1,
            r.last_attributions@ == Seq::<Double>::empty(),
    {
        RecallLedger { entries: Vec::new(), next_recall_id: 1, last_attributions: Vec::new() }
    }

    /// The place of the entry under `id`.
    fn position(&self, id: u64) -> (r: Option<usize>)
        requires
            self.valid(),
        ensures
            match r {
                Some(k) => k < self.entries@.len() && self.entries@[k as int].0 == id && kept_under(
                    self.entries@,
                    id,
                ) == Some(self.entries@[k as int].1@) && without_id(self.entries@, id)
                    == self.entries@.remove(k as int),
                None => kept_under(self.entries@, id) is None && without_id(self.entries@, id)
                    == self.entries@ && forall|k: int|
                    0 <= k < self.entries@.len() ==> (#[trigger] self.entries@[k]).0 != id,
            },
    {
        let mut k: usize = 0;
        while k < self.entries.len()
            invariant
                self.valid(),
                k <= self.entries@.len(),
                forall|j: int| 0 <= j < k ==> (#[trigger] self.entries@[j]).0 != id,
            decreases self.entries@.len() - k,
        {
            if self.entries[k].0 == id {
                proof {
                    lemma_found(self.entries@, id, k as int);
                }
                return Some(k);
            }
            k += 1;
        }
        proof {
            lemma_missing(self.entries@, id);
        }
        None
    }

    /// Remembers a recall and returns its id. Beyond the capacity the oldest
    /// entry goes.
    pub fn record(&mut self, attributions: Vec<Double>) -> (id: u64)
        requires
            old(self).valid(),
        ensures
            final(self).valid(),
            id == old(self).next_recall_id,
            final(self).next_recall_id == id_after(id),
            final(self).last_attributions@ == attributions@,
            final(self).entries@ == entered(old(self).entries@, id, attributions),
            kept_under(final(self).entries@, id) == Some(attributions@),
    {
        let id: u64 = self.next_recall_id;
        self.next_recall_id = if id < u64::MAX {
            id + 1
        } else {
            0
        };
        let mut copy: Vec<Double> = Vec::new();
        let mut i: usize = 0;
        while i < attributions.len()
            invariant
                i <= attributions@.len(),
                copy@ == attributions@.take(i as int),
            decreases attributions@.len() - i,
        {
            copy.push(attributions[i]);
            i += 1;
            assert(copy@ =~= attributions@.take(i as int));
        }
        assert(copy@ =~= attributions@);
        self.last_attributions = copy;
        let ghost before = self.entries@;
        match self.position(id) {
            Some(k) => {
                let _gone = self.entries.remove(k);
            },
            None => {},
        }
        let ghost cleared = self.entries@;
        proof {
            lemma_without(before, id);
        }
        self.entries.push((id, attributions));
        let ghost added = self.entries@;
        if self.entries.len() > LEDGER_CAPACITY {
            let _oldest = self.entries.remove(0);
            assert(self.entries@ =~= added.skip(1));
        }
        proof {
            assert(self.entries@.last() == (id, attributions));
        }
        id
    }

    /// Takes the attributions of a recall out of the ledger. An id that is not
    /// there falls back to those of the latest recall or reward.
    pub fn redeem(&mut self, recall_id: u64) -> (r: Redeemed)
        requires
            old(self).valid(),
        ensures
            final(self).valid(),
            final(self).next_recall_id == old(self).next_recall_id,
            kept_under(final(self).entries@, recall_id) is None,
            match kept_under(old(self).entries@, recall_id) {
                Some(a) => r.hit && r.attributions@ == a && final(self).entries@ == without_id(
                    old(self).entries@,
                    recall_id,
                ) && final(self).last_attributions@ == a,
                None => !r.hit && r.attributions@ == old(self).last_attributions@ && final(self).entries@ == old(self).entries@ && final(self).last_attributions@ == old(self).last_attributions@,
            },
    {
        match self.position(recall_id) {
            Some(k) => {
                proof {
                    lemma_without(self.entries@, recall_id);
                }
                let (_id, attributions) = self.entries.remove(k);
                proof {
                    lemma_missing(self.entries@, recall_id);
                }
                self.last_attributions = attributions;
                Redeemed { attributions: self.latest(), hit: true }
            },
            None => Redeemed { attributions: self.latest(), hit: false },
        }
    }

    /// The attributions that a reward without a recall id is applied to: the
    /// given ones, which are remembered, or the latest ones where none are
    /// given.
    pub fn attribute(&mut self, given: Vec<Double>) -> (r: Vec<Double>)
        requires
            old(self).valid(),
        ensures
            final(self).valid(),
            final(self).entries@ == old(self).entries@,
            final(self).next_recall_id == old(self).next_recall_id,
            r@ == if given@.len() == 0 {
                old(self).last_attributions@
            } else {
                given@
            },
            final(self).last_attributions@ == r@,
    {
        if given.len() > 0 {
            self.last_attributions = given;
        }
        self.latest()
    }

    fn latest(&self) -> (r: Vec<Double>)
        ensures
            r@ == self.last_attributions@,
    {
        let mut copy: Vec<Double> = Vec::new();
        let mut i: usize = 0;
        while i < self.last_attributions.len()
            invariant
                i <= self.last_attributions@.len(),
                copy@ == self.last_attributions@.take(i as int),
            decreases self.last_attributions@.len() - i,
        {
            copy.push(self.last_attributions[i]);
            i += 1;
            assert(copy@ =~= self.last_attributions@.take(i as int));
        }
        assert(copy@ =~= self.last_attributions@);
        copy
    }

    /// The id of the latest recall that may still be rewarded.
    pub fn last_recall_id(&self) -> (r: Option<u64>)
        ensures
            r == if self.entries@.len() == 0 {
                None
            } else {
                Some(self.entries@.last().0)
            },
    {
        if self.entries.len() == 0 {
            None
        } else {
            Some(self.entries[self.entries.len() - 1].0)
        }
    }
}

proof fn lemma_missing(entries: Seq<(u64, Vec<Double>)>, id: u64)
    requires
        forall|k: int| 0 <= k < entries.len() ==> (#[trigger] entries[k]).0 != id,
    ensures
        kept_under(entries, id) is None,
        without_id(entries, id) == entries,
    decreases entries.len(),
{
    if entries.len() > 0 {
        assert(entries[entries.len() - 1].0 != id);
        lemma_missing(entries.drop_last(), id);
        assert(without_id(entries, id) =~= entries);
    } else {
        assert(without_id(entries, id) =~= entries);
    }
}

proof fn lemma_found(entries: Seq<(u64, Vec<Double>)>, id: u64, k: int)
    requires
        0 <= k < entries.len(),
        entries[k].0 == id,
        forall|a: int, b: int|
            0 <= a < b < entries.len() ==> (#[trigger] entries[a]).0 != (#[trigger] entries[b]).0,
    ensures
        kept_under(entries, id) == Some(entries[k].1@),
        without_id(entries, id) == entries.remove(k),
    decreases entries.len(),
{
    let last = entries.len() - 1;
    if k == last {
        assert(without_id(entries, id) =~= entries.remove(k));
    } else {
        assert(entries[k].0 != entries[last].0);
        lemma_found(entries.drop_last(), id, k);
        assert(without_id(entries, id) =~= entries.remove(k));
    }
}

proof fn lemma_without(entries: Seq<(u64, Vec<Double>)>, id: u64)
    requires
        forall|a: int, b: int|
            0 <= a < b < entries.len() ==> (#[trigger] entries[a]).0 != (#[trigger] entries[b]).0,
    ensures
        forall|a: int, b: int|
            0 <= a < b < without_id(entries, id).len() ==> (#[trigger] without_id(entries, id)[a]).0
                != (#[trigger] without_id(entries, id)[b]).0,
        forall|a: int|
            0 <= a < without_id(entries, id).len() ==> (#[trigger] without_id(entries, id)[a]).0
                != id && exists|k: int|
                0 <= k < entries.len() && #[trigger] entries[k] == without_id(entries, id)[a],
        without_id(entries, id).len() <= entries.len(),
    decreases entries.len(),
{
    if entries.len() > 0 {
        let fewer = entries.drop_last();
        let last = entries.len() - 1;
        lemma_without(fewer, id);
        let rest = without_id(fewer, id);
        let out = without_id(entries, id);
        if entries.last().0 == id {
            assert forall|a: int| 0 <= a < out.len() implies (#[trigger] out[a]).0 != id && exists|
                k: int,
            |
                0 <= k < entries.len() && #[trigger] entries[k] == out[a] by {
                assert(entries[a].0 != entries[last].0);
                assert(entries[a] == out[a]);
            }
        } else {
            assert forall|a: int| 0 <= a < out.len() implies (#[trigger] out[a]).0 != id && exists|
                k: int,
            |
                0 <= k < entries.len() && #[trigger] entries[k] == out[a] by {
                if a < rest.len() {
                    assert(out[a] == rest[a]);
                    let k = choose|k: int| 0 <= k < fewer.len() && #[trigger] fewer[k] == rest[a];
                    assert(entries[k] == out[a]);
                } else {
                    assert(entries[last] == out[a]);
                }
            }
            assert forall|a: int, b: int| 0 <= a < b < out.len() implies (#[trigger] out[a]).0 != (
            #[trigger] out[b]).0 by {
                assert(out[a] == rest[a]);
                let k = choose|k: int| 0 <= k < fewer.len() && #[trigger] fewer[k] == rest[a];
                if b < rest.len() {
                    assert(out[b] == rest[b]);
                    assert(rest[a].0 != rest[b].0);
                } else {
                    assert(entries[k].0 != entries[last].0);
                }
            }
        }
    }
}

/// Entering a recall is the same on the entries and on their values.
pub proof fn lemma_entered_by_value(
    entries: Seq<(u64, Vec<Double>)>,
    id: u64,
    attributions: Vec<Double>,
)
    ensures
        ledger_view(entered(entries, id, attributions)) == entered(
            ledger_view(entries),
            id,
            attributions@,
        ),
{
    lemma_without_by_value(entries, id);
    assert(ledger_view(entered(entries, id, attributions)) =~= entered(
        ledger_view(entries),
        id,
        attributions@,
    ));
}

proof fn lemma_without_by_value(entries: Seq<(u64, Vec<Double>)>, id: u64)
    ensures
        ledger_view(without_id(entries, id)) == without_id(ledger_view(entries), id),
    decreases entries.len(),
{
    if entries.len() > 0 {
        lemma_without_by_value(entries.drop_last(), id);
        assert(ledger_view(entries).drop_last() =~= ledger_view(entries.drop_last()));
        assert(ledger_view(without_id(entries, id)) =~= without_id(ledger_view(entries), id));
    } else {
        assert(ledger_view(without_id(entries, id)) =~= without_id(ledger_view(entries), id));
    }
}

/// Recalls do not disturb each other: recording or redeeming one leaves the
/// attributions of every other as they were.
pub proof fn recalls_are_isolated(
    entries: Seq<(u64, Vec<Double>)>,
    id: u64,
    attributions: Vec<Double>,
    other: u64,
)
    requires
        id != other,
    ensures
        kept_under(without_id(entries, id), other) == kept_under(entries, other),
        kept_under(without_id(entries, id).push((id, attributions)), other) == kept_under(
            entries,
            other,
        ),
{
    lemma_without_keeps(entries, id, other);
    let rest = without_id(entries, id);
    assert(rest.push((id, attributions)).drop_last() =~= rest);
}

proof fn lemma_without_keeps(entries: Seq<(u64, Vec<Double>)>, id: u64, other: u64)
    requires
        id != other,
    ensures
        kept_under(without_id(entries, id), other) == kept_under(entries, other),
    decreases entries.len(),
{
    if entries.len() > 0 && entries.last().0 != id {
        lemma_without_keeps(entries.drop_last(), id, other);
        let rest = without_id(entries.drop_last(), id);
        assert(rest.push(entries.last()).drop_last() =~= rest);
    }
}

/// The entries after more recalls were entered, one after the other.
pub open spec fn entered_in_turn<T>(entries: Seq<(u64, T)>, later: Seq<(u64, T)>) -> Seq<(u64, T)>
    decreases later.len(),
{
    if later.len() == 0 {
        entries
    } else {
        entered(
            entered_in_turn(entries, later.drop_last()),
            later.last().0,
            later.last().1,
        )
    }
}

/// `id` stands at place `k`, and nowhere after it.
spec fn last_at<T>(entries: Seq<(u64, T)>, id: u64, k: int) -> bool {
    &&& 0 <= k < entries.len()
    &&& entries[k].0 == id
    &&& forall|j: int| k < j < entries.len() ==> (#[trigger] entries[j]).0 != id
}

proof fn lemma_last_is_kept(entries: Seq<(u64, Vec<Double>)>, id: u64, k: int)
    requires
        last_at(entries, id, k),
    ensures
        kept_under(entries, id) == Some(entries[k].1@),
    decreases entries.len(),
{
    let last = entries.len() - 1;
    if k < last {
        assert(entries[last].0 != id);
        assert(entries.drop_last()[k] == entries[k]);
        assert forall|j: int| k < j < entries.drop_last().len() implies (
        #[trigger] entries.drop_last()[j]).0 != id by {
            assert(entries[j].0 != id);
        }
        lemma_last_is_kept(entries.drop_last(), id, k);
    }
}

/// Taking another id out keeps an entry, and puts no more entries after it.
proof fn lemma_without_other<T>(entries: Seq<(u64, T)>, id: u64, other: u64, k: int) -> (at: int)
    requires
        last_at(entries, id, k),
        id != other,
    ensures
        last_at(without_id(entries, other), id, at),
        without_id(entries, other)[at] == entries[k],
        without_id(entries, other).len() - at <= entries.len() - k,
    decreases entries.len(),
{
    let last = entries.len() - 1;
    let fewer = entries.drop_last();
    let out = without_id(entries, other);
    if k == last {
        assert(out.last() == entries[k]);
        out.len() - 1
    } else {
        assert(entries[last].0 != id);
        assert forall|j: int| k < j < fewer.len() implies (#[trigger] fewer[j]).0 != id by {
            assert(entries[j].0 != id);
        }
        if entries[last].0 == other {
            k
        } else {
            let at = lemma_without_other(fewer, id, other, k);
            let rest = without_id(fewer, other);
            assert(out =~= rest.push(entries.last()));
            assert forall|j: int| at < j < out.len() implies (#[trigger] out[j]).0 != id by {
                if j < rest.len() {
                    assert(rest[j].0 != id);
                }
            }
            at
        }
    }
}

proof fn lemma_entry_stays<T>(
    entries: Seq<(u64, T)>,
    id: u64,
    attributions: T,
    later: Seq<(u64, T)>,
) -> (at: int)
    requires
        later.len() < LEDGER_CAPACITY,
        forall|j: int| 0 <= j < later.len() ==> (#[trigger] later[j]).0 != id,
    ensures
        ({
            let all = entered_in_turn(entered(entries, id, attributions), later);
            &&& last_at(all, id, at)
            &&& all[at] == (id, attributions)
            &&& all.len() - 1 - at <= later.len()
        }),
    decreases later.len(),
{
    let first = entered(entries, id, attributions);
    if later.len() == 0 {
        assert(first.last() == (id, attributions));
        first.len() - 1
    } else {
        let fewer = later.drop_last();
        assert forall|j: int| 0 <= j < fewer.len() implies (#[trigger] fewer[j]).0 != id by {
            assert(later[j].0 != id);
        }
        let before = entered_in_turn(first, fewer);
        let k = lemma_entry_stays(entries, id, attributions, fewer);
        let other = later.last().0;
        assert(later[later.len() - 1].0 != id);
        let at = lemma_without_other(before, id, other, k);
        let added = without_id(before, other).push((other, later.last().1));
        assert(added[at] == (id, attributions));
        assert forall|j: int| at < j < added.len() implies (#[trigger] added[j]).0 != id by {
            if j < added.len() - 1 {
                assert(without_id(before, other)[j].0 != id);
            }
        }
        if added.len() > LEDGER_CAPACITY {
            let all = added.skip(1);
            assert(all[at - 1] == added[at]);
            assert forall|j: int| at - 1 < j < all.len() implies (#[trigger] all[j]).0 != id by {
                assert(added[j + 1].0 != id);
            }
            at - 1
        } else {
            at
        }
    }
}

/// A recall can be rewarded with its own attributions until as many others have
/// been entered after it as the ledger holds.
pub proof fn recalls_stay_rewardable(
    entries: Seq<(u64, Vec<Double>)>,
    id: u64,
    attributions: Vec<Double>,
    later: Seq<(u64, Vec<Double>)>,
)
    requires
        later.len() < LEDGER_CAPACITY,
        forall|j: int| 0 <= j < later.len() ==> (#[trigger] later[j]).0 != id,
    ensures
        kept_under(entered_in_turn(entered(entries, id, attributions), later), id) == Some(
            attributions@,
        ),
{
    let at = lemma_entry_stays(entries, id, attributions, later);
    lemma_last_is_kept(entered_in_turn(entered(entries, id, attributions), later), id, at);
}

/// Eviction takes the oldest recall only: every other keeps its attributions.
pub proof fn eviction_takes_the_oldest(entries: Seq<(u64, Vec<Double>)>, other: u64)
    requires
        entries.len() > 0,
        entries[0].0 != other,
    ensures
        kept_under(entries.skip(1), other) == kept_under(entries, other),
    decreases entries.len(),
{
    if entries.len() > 1 {
        eviction_takes_the_oldest(entries.drop_last(), other);
        assert(entries.skip(1).drop_last() =~= entries.drop_last().skip(1));
    } else {
        assert(entries.skip(1) =~= Seq::empty());
        assert(entries.drop_last() =~= Seq::empty());
    }
}

/// The relevance floor goes by the effective relevance alone: with a floor above
/// zero, what is kept is exactly what is not below the floor in its effective
/// relevance and not below the score floor in its resonance, in order.
pub proof fn floor_goes_by_relevance(
    hits: Seq<ResonanceResult>,
    effective: Seq<Double>,
    min_sim: Double,
    min_score: Double,
)
    requires
        effective.len() == hits.len(),
        (Double { bits: 0 }).lt(min_sim),
    ensures
        relevant_hits(hits, effective, min_sim, min_score) == Seq::new(
            hits.len(),
            |i: int| (hits[i], effective[i]),
        ).filter(
            |h: (ResonanceResult, Double)|
                !h.1.lt(min_sim) && !h.0.resonance_score.lt(min_score),
        ).map_values(|h: (ResonanceResult, Double)| h.0),
    decreases hits.len(),
{
    lemma_kept(
        hits,
        effective,
        min_sim,
        min_score,
        |h: (ResonanceResult, Double)| !h.1.lt(min_sim) && !h.0.resonance_score.lt(min_score),
    );
}

/// A floor at or below zero is off: what is kept is exactly what is not below the
/// score floor, in order.
pub proof fn no_floor_keeps_every_relevance(
    hits: Seq<ResonanceResult>,
    effective: Seq<Double>,
    min_sim: Double,
    min_score: Double,
)
    requires
        effective.len() == hits.len(),
        min_sim.le(Double { bits: 0 }),
    ensures
        relevant_hits(hits, effective, min_sim, min_score) == hits.filter(
            |h: ResonanceResult| !h.resonance_score.lt(min_score),
        ),
    decreases hits.len(),
{
    reveal(Seq::filter);
    if hits.len() > 0 {
        let fewer = hits.drop_last();
        no_floor_keeps_every_relevance(fewer, effective.drop_last(), min_sim, min_score);
        lemma_same_effective(fewer, effective.drop_last(), effective, min_sim, min_score);
    }
}

proof fn lemma_same_effective(
    hits: Seq<ResonanceResult>,
    a: Seq<Double>,
    b: Seq<Double>,
    min_sim: Double,
    min_score: Double,
)
    requires
        forall|i: int| 0 <= i < hits.len() ==> #[trigger] a[i] == b[i],
    ensures
        relevant_hits(hits, a, min_sim, min_score) == relevant_hits(hits, b, min_sim, min_score),
    decreases hits.len(),
{
    if hits.len() > 0 {
        assert(a[hits.len() - 1] == b[hits.len() - 1]);
        lemma_same_effective(hits.drop_last(), a, b, min_sim, min_score);
    }
}

proof fn lemma_kept(
    hits: Seq<ResonanceResult>,
    effective: Seq<Double>,
    min_sim: Double,
    min_score: Double,
    keep: spec_fn((ResonanceResult, Double)) -> bool,
)
    requires
        effective.len() == hits.len(),
        forall|h: (ResonanceResult, Double)| #[trigger]
            keep(h) == clears_floor(h.0, h.1, min_sim, min_score),
    ensures
        relevant_hits(hits, effective, min_sim, min_score) == Seq::new(
            hits.len(),
            |i: int| (hits[i], effective[i]),
        ).filter(keep).map_values(|h: (ResonanceResult, Double)| h.0),
    decreases hits.len(),
{
    reveal(Seq::filter);
    let pairs = Seq::new(hits.len(), |i: int| (hits[i], effective[i]));
    let first = |h: (ResonanceResult, Double)| h.0;
    if hits.len() > 0 {
        let fewer = hits.drop_last();
        let less = effective.drop_last();
        let before = Seq::new(fewer.len(), |i: int| (fewer[i], less[i]));
        assert(pairs.drop_last() =~= before);
        lemma_kept(fewer, less, min_sim, min_score, keep);
        lemma_same_effective(fewer, less, effective, min_sim, min_score);
        assert(before.filter(keep).push(pairs.last()).map_values(first) =~= before.filter(
            keep,
        ).map_values(first).push(hits.last()));
    } else {
        assert(pairs.filter(keep).map_values(first) =~= Seq::empty());
    }
}

/// A hit is shown or dropped on its own: with a floor above zero it is kept exactly
/// where its effective relevance is not below the floor and its resonance not below
/// the score floor, whatever else was found.
pub proof fn each_hit_clears_the_floor_itself(
    hits: Seq<ResonanceResult>,
    effective: Seq<Double>,
    min_sim: Double,
    min_score: Double,
    i: int,
)
    requires
        effective.len() == hits.len(),
        (Double { bits: 0 }).lt(min_sim),
        0 <= i < hits.len(),
    ensures
        !effective[i].lt(min_sim) && !hits[i].resonance_score.lt(min_score) ==> relevant_hits(
            hits,
            effective,
            min_sim,
            min_score,
        ).contains(hits[i]),
        effective[i].lt(min_sim) && (forall|j: int|
            0 <= j < hits.len() && j != i ==> #[trigger] hits[j] != hits[i]) ==> !relevant_hits(
            hits,
            effective,
            min_sim,
            min_score,
        ).contains(hits[i]),
{
    let kept = relevant_hits(hits, effective, min_sim, min_score);
    if !effective[i].lt(min_sim) && !hits[i].resonance_score.lt(min_score) {
        lemma_cleared_is_kept(hits, effective, min_sim, min_score, i);
    }
    if effective[i].lt(min_sim) && kept.contains(hits[i]) {
        let k = choose|k: int| 0 <= k < kept.len() && kept[k] == hits[i];
        shown_hits_are_relevant(hits, effective, min_sim, min_score, k);
        let j = choose|j: int|
            #![trigger hits[j]]
            0 <= j < hits.len() && kept[k] == hits[j] && clears_floor(
                hits[j],
                effective[j],
                min_sim,
                min_score,
            );
        assert(hits[j] == hits[i]);
    }
}

proof fn lemma_cleared_is_kept(
    hits: Seq<ResonanceResult>,
    effective: Seq<Double>,
    min_sim: Double,
    min_score: Double,
    i: int,
)
    requires
        0 <= i < hits.len(),
        clears_floor(hits[i], effective[i], min_sim, min_score),
    ensures
        relevant_hits(hits, effective, min_sim, min_score).contains(hits[i]),
    decreases hits.len(),
{
    let fewer = hits.drop_last();
    let before = relevant_hits(fewer, effective, min_sim, min_score);
    let after = relevant_hits(hits, effective, min_sim, min_score);
    if i < fewer.len() {
        lemma_cleared_is_kept(fewer, effective, min_sim, min_score, i);
        let k = choose|k: int| 0 <= k < before.len() && before[k] == hits[i];
        assert(after[k] == hits[i]);
    } else {
        assert(after[before.len() as int] == hits[i]);
    }
}

/// What is shown is the strongest there is: as many as the limit allows, each from
/// among the results, and nothing that is left out is stronger than anything shown.
pub proof fn the_strongest_are_shown(
    results: Seq<ResonanceResult>,
    limit: nat,
    out: Seq<ResonanceResult>,
    k: int,
    i: int,
)
    requires
        is_top(results, limit, out),
        0 <= k < out.len(),
        0 <= i < results.len(),
    ensures
        out.len() == if results.len() <= limit {
            results.len()
        } else {
            limit
        },
        results.contains(out[k]),
        out.contains(results[i]) || !out[k].resonance_score.lt(results[i].resonance_score),
        results.len() <= limit ==> out.contains(results[i]),
{
    let keys = score_keys(results);
    let sorted = choose|sorted: Seq<ResonanceResult>|
        #![trigger is_ranked(results, keys, sorted)]
        is_ranked(results, keys, sorted) && out == at_most(sorted, limit);
    let order = choose|order: Seq<int>| #[trigger]
        crate::ranking::is_ranking(keys, order) && crate::ranking::is_reordered(
            results,
            order,
            sorted,
        );
    assert(sorted[k] == results[order[k]]);
    crate::ranking::ranking_keeps_items(results, keys, sorted);
    broadcast use vstd::seq_lib::group_to_multiset_ensures;

    assert(results.contains(results[i]));
    assert(sorted.to_multiset().count(results[i]) > 0);
    assert(sorted.contains(results[i]));
    let h = choose|h: int| 0 <= h < sorted.len() && sorted[h] == results[i];
    if h < out.len() {
        assert(out[h] == results[i]);
    } else {
        assert(sorted[h] == results[order[h]]);
        assert(precedes(keys, order[k], order[h]));
    }
}

/// The position of a score is the number of scores before it: the higher ones, and
/// the equal ones that came first.
pub proof fn positions_count_what_is_ahead(keys: Seq<i128>, i: int, n: nat)
    requires
        0 <= i < keys.len(),
        n <= keys.len(),
    ensures
        ahead_of(keys, i, n as int) == Seq::new(n, |j: int| j).filter(
            |j: int| keys[j] > keys[i] || (keys[j] == keys[i] && j < i),
        ).len(),
    decreases n,
{
    reveal(Seq::filter);
    let all = Seq::new(n, |j: int| j);
    if n > 0 {
        assert(all.drop_last() =~= Seq::new((n - 1) as nat, |j: int| j));
        positions_count_what_is_ahead(keys, i, (n - 1) as nat);
    }
}

/// The usable traits are those whose value and stability are both numbers, each
/// with these numbers, in order.
pub proof fn usable_traits_have_both_numbers(rows: Seq<JsonView>)
    ensures
        usable_traits(rows) == rows.filter(
            |row: JsonView|
                field(row, "value"@) is Some && field(row, "value"@)->0 is Number && field(
                    row,
                    "stability"@,
                ) is Some && field(row, "stability"@)->0 is Number,
        ).map_values(
            |row: JsonView|
                (
                    (field(row, "value"@)->0)->Number_0,
                    (field(row, "stability"@)->0)->Number_0,
                ),
        ),
    decreases rows.len(),
{
    reveal(Seq::filter);
    let usable = |row: JsonView|
        field(row, "value"@) is Some && field(row, "value"@)->0 is Number && field(
            row,
            "stability"@,
        ) is Some && field(row, "stability"@)->0 is Number;
    let numbers = |row: JsonView|
        ((field(row, "value"@)->0)->Number_0, (field(row, "stability"@)->0)->Number_0);
    if rows.len() > 0 {
        let fewer = rows.drop_last();
        usable_traits_have_both_numbers(fewer);
        assert(fewer.filter(usable).push(rows.last()).map_values(numbers) =~= fewer.filter(
            usable,
        ).map_values(numbers).push(numbers(rows.last())));
    } else {
        assert(rows.filter(usable).map_values(numbers) =~= Seq::empty());
    }
}

/// Taking a recall out takes out its entry alone, and leaves the others in order.
pub proof fn redeeming_takes_one_entry<T>(entries: Seq<(u64, T)>, id: u64)
    requires
        forall|a: int, b: int|
            0 <= a < b < entries.len() ==> (#[trigger] entries[a]).0 != (#[trigger] entries[b]).0,
    ensures
        without_id(entries, id) == entries.filter(|e: (u64, T)| e.0 != id),
    decreases entries.len(),
{
    reveal(Seq::filter);
    let other = |e: (u64, T)| e.0 != id;
    if entries.len() > 0 {
        let fewer = entries.drop_last();
        assert forall|a: int, b: int| 0 <= a < b < fewer.len() implies (#[trigger] fewer[a]).0 != (
        #[trigger] fewer[b]).0 by {
            assert(entries[a].0 != entries[b].0);
        }
        redeeming_takes_one_entry(fewer, id);
        if entries.last().0 == id {
            assert forall|a: int| 0 <= a < fewer.len() implies other(#[trigger] fewer[a]) by {
                assert(entries[a].0 != entries[entries.len() - 1].0);
            }
            lemma_filter_all(fewer, other);
        }
    }
}

proof fn lemma_filter_all<T>(s: Seq<T>, pred: spec_fn(T) -> bool)
    requires
        forall|k: int| 0 <= k < s.len() ==> pred(#[trigger] s[k]),
    ensures
        s.filter(pred) == s,
    decreases s.len(),
{
    reveal(Seq::filter);
    if s.len() > 0 {
        let fewer = s.drop_last();
        assert forall|k: int| 0 <= k < fewer.len() implies pred(#[trigger] fewer[k]) by {
            assert(pred(s[k]));
        }
        lemma_filter_all(fewer, pred);
        assert(pred(s[s.len() - 1]));
        assert(fewer.push(s.last()) =~= s);
    }
}

/// The attributions of a recall are those of its entry.
pub proof fn recalls_keep_their_own(entries: Seq<(u64, Vec<Double>)>, k: int)
    requires
        0 <= k < entries.len(),
        forall|a: int, b: int|
            0 <= a < b < entries.len() ==> (#[trigger] entries[a]).0 != (#[trigger] entries[b]).0,
    ensures
        kept_under(entries, entries[k].0) == Some(entries[k].1@),
{
    lemma_found(entries, entries[k].0, k);
}

/// An id without an entry has no attributions.
pub proof fn unknown_recalls_keep_nothing(entries: Seq<(u64, Vec<Double>)>, id: u64)
    requires
        forall|k: int| 0 <= k < entries.len() ==> (#[trigger] entries[k]).0 != id,
    ensures
        kept_under(entries, id) is None,
{
    lemma_missing(entries, id);
}

/// A new recall comes last. The ledger holds 1024 recalls: below that none leaves,
/// and at that the oldest does and no other.
pub proof fn the_ledger_holds_the_latest<T>(entries: Seq<(u64, T)>, id: u64, attributions: T)
    requires
        forall|k: int| 0 <= k < entries.len() ==> (#[trigger] entries[k]).0 != id,
        entries.len() <= 1024,
    ensures
        entered(entries, id, attributions) == if entries.len() < 1024 {
            entries.push((id, attributions))
        } else {
            entries.drop_first().push((id, attributions))
        },
{
    lemma_without_missing(entries, id);
    if entries.len() == 1024 {
        assert(entries.push((id, attributions)).skip(1) =~= entries.drop_first().push(
            (id, attributions),
        ));
    }
}

proof fn lemma_without_missing<T>(entries: Seq<(u64, T)>, id: u64)
    requires
        forall|k: int| 0 <= k < entries.len() ==> (#[trigger] entries[k]).0 != id,
    ensures
        without_id(entries, id) == entries,
    decreases entries.len(),
{
    if entries.len() > 0 {
        assert(entries[entries.len() - 1].0 != id);
        lemma_without_missing(entries.drop_last(), id);
    }
    assert(without_id(entries, id) =~= entries);
}

/// Recalls are numbered one after the other, and the numbers go round.
pub proof fn recall_ids_go_up(id: u64)
    ensures
        id < u64::MAX ==> id_after(id) == id + 1,
        id_after(u64::MAX) == 0,
{
}

/// A memory's activation count is the one in the first row of the reply.
pub proof fn activation_is_in_the_first_row(
    reply: JsonView,
    rows: Seq<JsonView>,
    count: JsonView,
)
    requires
        field(reply, "engram"@) == Some(JsonView::Array(rows)),
        rows.len() > 0,
        field(rows[0], "activation_count"@) == Some(count),
    ensures
        activation_in(reply) == match i64_of(count) {
            Some(n) => n,
            None => 0,
        },
{
}

/// A memory that no row speaks of was never activated.
pub proof fn unread_memories_were_never_activated(reply: JsonView)
    ensures
        field(reply, "engram"@) is None ==> activation_in(reply) == 0,
        field(reply, "engram"@) == Some(JsonView::Array(Seq::empty())) ==> activation_in(reply) == 0,
        field(reply, "engram"@) matches Some(JsonView::Array(rows)) ==> (rows.len() > 0 && field(
            rows[0],
            "activation_count"@,
        ) is None ==> activation_in(reply) == 0),
{
}

} // verus!
