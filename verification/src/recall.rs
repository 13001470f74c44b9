//! A recall from the query to its answer: what is asked of the embedder and of
//! the store, in order, and which memories come out.

use crate::double::Double;
use crate::edge_weights::IDX_RECALLS;
use crate::error::{ErrorView, MnemosError, Outcome};
use crate::http_api::recall_view;
use crate::ids::{saturated_param, saturated_value};
use crate::json::{field, lemma_lookup_push, Json, JsonView};
use crate::ranking::{is_ranked, is_ranking, is_reordered};
use crate::retrieval::{
    activation_in, at_most, clears_floor, drop_irrelevant, entered, fetch_limit, id_after, is_top,
    ledger_view, lemma_entered_by_value, next_activation, relevant_hits, score_keys,
    shown_hits_are_relevant, top_results, RecallLedger,
};
use crate::types::{EngramCandidate, ResonanceResult};
use vstd::prelude::*;

verus! {

/// What a recall asks for next.
#[derive(Clone, Copy, Debug, PartialEq, Eq, Structural)]
pub enum RecallRequest {
    /// Embed the query.
    Embed,
    /// Search the nearest memories.
    Search { fetch: i64 },
    /// Read how a candidate aligns with the identity.
    Align { engram: i64 },
    /// Score the candidates.
    Score,
    /// Read how often a memory was recalled.
    ReadActivation { engram: i64 },
    /// Store how often it was.
    WriteActivation { engram: i64, count: i64 },
    /// Measure what the memories contributed.
    Attribute,
    /// Nothing is left to do.
    Finish,
}

/// How far a recall has come.
#[derive(Debug)]
pub enum RecallPhase {
    Embedding,
    Searching,
    /// The first candidates have their alignment.
    Aligning { candidates: Vec<EngramCandidate>, alignments: Vec<Double> },
    /// The hits before `at` have been activated.
    Activating { hits: Vec<ResonanceResult>, at: usize, count: Option<i64> },
    Done { hits: Vec<ResonanceResult>, recall_id: u64 },
    Failed { error: MnemosError },
}

/// A recall under way.
#[derive(Debug)]
pub struct RecallRun {
    pub limit: usize,
    pub min_sim: Double,
    pub min_score: Double,
    pub phase: RecallPhase,
}

/// The bits of 0.70: the relevance floor where none is set.
pub const DEFAULT_MIN_SIM: u64 = 0x3FE6_6666_6666_6666;

/// The bits of 0.0: the score floor where none is set.
pub const DEFAULT_MIN_SCORE: u64 = 0;

/// A floor: the one that is set, or the default where none is, or where what is
/// set is no number.
pub open spec fn floor_of(set: Option<Double>, default: u64) -> Double {
    match set {
        Some(v) => if v.nan() {
            Double { bits: default }
        } else {
            v
        },
        None => Double { bits: default },
    }
}

fn floor_from(set: Option<Double>, default: u64) -> (r: Double)
    ensures
        r == floor_of(set, default),
{
    match set {
        Some(v) => if v.is_nan() {
            Double { bits: default }
        } else {
            v
        },
        None => Double { bits: default },
    }
}

/// What scoring gives for one candidate.
#[derive(Clone, Copy, Debug, PartialEq, Eq, Structural)]
pub struct Resonance {
    pub resonance_score: Double,
    pub semantic_sim: Double,
    pub recency_weight: Double,
    pub reward_score: Double,
    pub reward_factor: Double,
    /// The relevance that the floor applies to.
    pub effective: Double,
}

/// The result that a candidate becomes.
pub open spec fn result_of(c: EngramCandidate, alignment: Double, s: Resonance) -> ResonanceResult {
    ResonanceResult {
        engram_id: c.id,
        resonance_score: s.resonance_score,
        episode_raw: c.episode_raw,
        emotional_charge: c.emotional_charge,
        importance_score: c.importance_score,
        identity_alignment: alignment,
        semantic_sim: s.semantic_sim,
        recency_weight: s.recency_weight,
        reward_score: s.reward_score,
        reward_factor: s.reward_factor,
    }
}

/// The results that the candidates become, in order.
pub open spec fn results_of(
    candidates: Seq<EngramCandidate>,
    alignments: Seq<Double>,
    scores: Seq<Resonance>,
) -> Seq<ResonanceResult> {
    Seq::new(candidates.len(), |k: int| result_of(candidates[k], alignments[k], scores[k]))
}

/// The relevance of each.
pub open spec fn effective_of(scores: Seq<Resonance>) -> Seq<Double> {
    scores.map_values(|s: Resonance| s.effective)
}

/// How many candidates are fetched for a limit.
pub open spec fn fetched(limit: usize) -> i64 {
    if limit <= i64::MAX {
        limit as i64
    } else {
        i64::MAX
    }
}

/// The activation count after one more recall.
pub open spec fn activated_once_more(reply: JsonView) -> i64 {
    if activation_in(reply) < i64::MAX {
        (activation_in(reply) + 1) as i64
    } else {
        i64::MAX
    }
}

/// What a recall contributed to each pathway: hits come by the first, with their
/// mean strength.
pub open spec fn contributions(any: bool, strength: Double) -> Seq<Double> {
    Seq::new(
        8,
        |i: int|
            if i == IDX_RECALLS && any {
                strength
            } else {
                Double { bits: 0 }
            },
    )
}

fn contributions_of(any: bool, strength: Double) -> (r: Vec<Double>)
    ensures
        r@ == contributions(any, strength),
{
    let mut out: Vec<Double> = Vec::new();
    let mut i: usize = 0;
    while i < 8
        invariant
            i <= 8,
            out@ == contributions(any, strength).take(i as int),
        decreases 8 - i,
    {
        if i == IDX_RECALLS && any {
            out.push(strength);
        } else {
            out.push(Double { bits: 0 });
        }
        i += 1;
        assert(out@ =~= contributions(any, strength).take(i as int));
    }
    assert(out@ =~= contributions(any, strength));
    out
}

impl RecallRun {
    /// No more candidates are aligned than there are, and no more hits
    /// activated.
    pub open spec fn valid(&self) -> bool {
        match self.phase {
            RecallPhase::Aligning { candidates, alignments } => alignments@.len()
                <= candidates@.len(),
            RecallPhase::Activating { hits, at, count } => at <= hits@.len() && (count is Some ==> at
                < hits@.len()),
            _ => true,
        }
    }

    /// The limit and the floors stay as they were.
    pub open spec fn same_settings(&self, other: RecallRun) -> bool {
        self.limit == other.limit && self.min_sim == other.min_sim && self.min_score
            == other.min_score
    }

    /// How many answers the recall still waits for at most, once its candidates
    /// are known.
    pub open spec fn remaining(&self) -> int {
        match self.phase {
            RecallPhase::Aligning { candidates, alignments } => 2 * self.limit + candidates@.len()
                - alignments@.len() + 2,
            RecallPhase::Activating { hits, at, count } => 2 * (hits@.len() - at) + 1 - if count is Some {
                1int
            } else {
                0
            },
            _ => 0,
        }
    }

    /// The request at hand.
    pub open spec fn asked(&self) -> RecallRequest {
        match self.phase {
            RecallPhase::Embedding => RecallRequest::Embed,
            RecallPhase::Searching => RecallRequest::Search { fetch: fetched(self.limit) },
            RecallPhase::Aligning { candidates, alignments } => if alignments@.len()
                < candidates@.len() {
                RecallRequest::Align {
                    engram: saturated_value(candidates@[alignments@.len() as int].id),
                }
            } else {
                RecallRequest::Score
            },
            RecallPhase::Activating { hits, at, count } => match count {
                Some(count) => RecallRequest::WriteActivation {
                    engram: saturated_value(hits@[at as int].engram_id),
                    count,
                },
                None => if at < hits@.len() {
                    RecallRequest::ReadActivation {
                        engram: saturated_value(hits@[at as int].engram_id),
                    }
                } else {
                    RecallRequest::Attribute
                },
            },
            RecallPhase::Done { .. } | RecallPhase::Failed { .. } => RecallRequest::Finish,
        }
    }

    /// Begins a recall of at most `limit` memories above the floors.
    pub fn begin(limit: usize, min_sim: Double, min_score: Double) -> (r: RecallRun)
        ensures
            r == (RecallRun { limit, min_sim, min_score, phase: RecallPhase::Embedding }),
            r.valid(),
    {
        RecallRun { limit, min_sim, min_score, phase: RecallPhase::Embedding }
    }

    /// Begins a recall of at most `limit` memories above the floors that are set,
    /// or above the default ones.
    pub fn with_floors(limit: usize, min_sim: Option<Double>, min_score: Option<Double>) -> (r:
        RecallRun)
        ensures
            r.valid(),
            r == (RecallRun {
                limit,
                min_sim: floor_of(min_sim, DEFAULT_MIN_SIM),
                min_score: floor_of(min_score, DEFAULT_MIN_SCORE),
                phase: RecallPhase::Embedding,
            }),
    {
        RecallRun::begin(
            limit,
            floor_from(min_sim, DEFAULT_MIN_SIM),
            floor_from(min_score, DEFAULT_MIN_SCORE),
        )
    }

    /// What to do next.
    pub fn request(&self) -> (r: RecallRequest)
        requires
            self.valid(),
        ensures
            r == self.asked(),
    {
        match &self.phase {
            RecallPhase::Embedding => RecallRequest::Embed,
            RecallPhase::Searching => RecallRequest::Search { fetch: fetch_limit(self.limit) },
            RecallPhase::Aligning { candidates, alignments } => if alignments.len()
                < candidates.len() {
                RecallRequest::Align { engram: saturated_param(candidates[alignments.len()].id) }
            } else {
                RecallRequest::Score
            },
            RecallPhase::Activating { hits, at, count } => match count {
                Some(count) => RecallRequest::WriteActivation {
                    engram: saturated_param(hits[*at].engram_id),
                    count: *count,
                },
                None => if *at < hits.len() {
                    RecallRequest::ReadActivation { engram: saturated_param(hits[*at].engram_id) }
                } else {
                    RecallRequest::Attribute
                },
            },
            RecallPhase::Done { .. } => RecallRequest::Finish,
            RecallPhase::Failed { .. } => RecallRequest::Finish,
        }
    }

    /// Takes note whether the query was embedded.
    pub fn embedded(self, reply: Outcome<()>) -> (r: RecallRun)
        requires
            self.phase is Embedding,
        ensures
            r.valid(),
            r.same_settings(self),
            match reply {
                Ok(_) => r.phase is Searching,
                Err(e) => r.phase == (RecallPhase::Failed { error: e }),
            },
    {
        match reply {
            Ok(_) => RecallRun { phase: RecallPhase::Searching, ..self },
            Err(error) => RecallRun { phase: RecallPhase::Failed { error }, ..self },
        }
    }

    /// Takes the candidates that the search found, or what it failed with.
    pub fn found(self, reply: Result<Vec<EngramCandidate>, String>) -> (r: RecallRun)
        requires
            self.phase is Searching,
        ensures
            r.valid(),
            r.same_settings(self),
            match reply {
                Ok(found) => r.phase matches RecallPhase::Aligning { candidates, alignments }
                    && candidates == found && alignments@.len() == 0,
                Err(words) => r.phase matches RecallPhase::Failed { error } && error@
                    == ErrorView::Storage(words@),
            },
    {
        match reply {
            Ok(candidates) => RecallRun {
                phase: RecallPhase::Aligning { candidates, alignments: Vec::new() },
                ..self
            },
            Err(words) => RecallRun {
                phase: RecallPhase::Failed { error: MnemosError::Storage(words) },
                ..self
            },
        }
    }

    /// Takes the alignment of the candidate at hand.
    pub fn aligned(self, alignment: Double) -> (r: RecallRun)
        requires
            self.valid(),
            self.asked() is Align,
        ensures
            r.valid(),
            r.same_settings(self),
            0 <= r.remaining() < self.remaining(),
            match self.phase {
                RecallPhase::Aligning { candidates, alignments } => r.phase matches
                    RecallPhase::Aligning { candidates: same, alignments: more } && same
                    == candidates && more@ == alignments@.push(alignment),
                _ => false,
            },
    {
        match self.phase {
            RecallPhase::Aligning { candidates, alignments } => {
                let mut alignments = alignments;
                alignments.push(alignment);
                RecallRun {
                    limit: self.limit,
                    min_sim: self.min_sim,
                    min_score: self.min_score,
                    phase: RecallPhase::Aligning { candidates, alignments },
                }
            },
            _ => self,
        }
    }

    /// Takes the scores of the candidates, one for each. The candidates that clear
    /// the floors stay, the strongest first, at most `limit` of them.
    pub fn scored(self, scores: &Vec<Resonance>) -> (r: RecallRun)
        requires
            self.valid(),
            self.asked() is Score,
            self.phase matches RecallPhase::Aligning { candidates, alignments } && scores@.len()
                == candidates@.len(),
        ensures
            r.valid(),
            r.same_settings(self),
            0 <= r.remaining() < self.remaining(),
            match self.phase {
                RecallPhase::Aligning { candidates, alignments } => r.phase matches
                    RecallPhase::Activating { hits, at, count } && at == 0 && count is None
                    && is_top(
                    relevant_hits(
                        results_of(candidates@, alignments@, scores@),
                        effective_of(scores@),
                        self.min_sim,
                        self.min_score,
                    ),
                    self.limit as nat,
                    hits@,
                ) && hits@.len() <= self.limit,
                _ => false,
            },
    {
        match self.phase {
            RecallPhase::Aligning { candidates, alignments } => {
                let mut results: Vec<ResonanceResult> = Vec::new();
                let mut effective: Vec<Double> = Vec::new();
                let mut i: usize = 0;
                while i < candidates.len()
                    invariant
                        i <= candidates@.len(),
                        candidates@.len() == alignments@.len(),
                        candidates@.len() == scores@.len(),
                        results@ == results_of(candidates@, alignments@, scores@).take(i as int),
                        effective@ == effective_of(scores@).take(i as int),
                    decreases candidates@.len() - i,
                {
                    let c = &candidates[i];
                    let s: Resonance = scores[i];
                    results.push(
                        ResonanceResult {
                            engram_id: c.id,
                            resonance_score: s.resonance_score,
                            episode_raw: c.episode_raw.clone(),
                            emotional_charge: c.emotional_charge,
                            importance_score: c.importance_score,
                            identity_alignment: alignments[i],
                            semantic_sim: s.semantic_sim,
                            recency_weight: s.recency_weight,
                            reward_score: s.reward_score,
                            reward_factor: s.reward_factor,
                        },
                    );
                    effective.push(s.effective);
                    i += 1;
                    assert(results@ =~= results_of(candidates@, alignments@, scores@).take(
                        i as int,
                    ));
                    assert(effective@ =~= effective_of(scores@).take(i as int));
                }
                assert(results@ =~= results_of(candidates@, alignments@, scores@));
                assert(effective@ =~= effective_of(scores@));
                let relevant = drop_irrelevant(results, &effective, self.min_sim, self.min_score);
                let hits = top_results(relevant, self.limit);
                RecallRun {
                    limit: self.limit,
                    min_sim: self.min_sim,
                    min_score: self.min_score,
                    phase: RecallPhase::Activating { hits, at: 0, count: None },
                }
            },
            _ => self,
        }
    }

    /// Takes the activation of the hit at hand. Where it could not be read, the
    /// hit is passed over.
    pub fn activation_read(self, reply: Option<&Json>) -> (r: RecallRun)
        requires
            self.valid(),
            self.asked() is ReadActivation,
        ensures
            r.valid(),
            r.same_settings(self),
            0 <= r.remaining() < self.remaining(),
            match self.phase {
                RecallPhase::Activating { hits, at, count: _ } => r.phase == match reply {
                    Some(j) => RecallPhase::Activating {
                        hits,
                        at,
                        count: Some(activated_once_more(j@)),
                    },
                    None => RecallPhase::Activating { hits, at: (at + 1) as usize, count: None },
                },
                _ => false,
            },
    {
        match self.phase {
            RecallPhase::Activating { hits, at, count: _ } => {
                assert(hits@.len() == hits.len());
                let phase = match reply {
                    Some(j) => RecallPhase::Activating { hits, at, count: Some(next_activation(j)) },
                    None => RecallPhase::Activating { hits, at: at + 1, count: None },
                };
                RecallRun {
                    limit: self.limit,
                    min_sim: self.min_sim,
                    min_score: self.min_score,
                    phase,
                }
            },
            _ => self,
        }
    }

    /// Goes on after the activation of the hit at hand was stored, or was not: a
    /// recall does not fail for it.
    pub fn activation_written(self) -> (r: RecallRun)
        requires
            self.valid(),
            self.asked() is WriteActivation,
        ensures
            r.valid(),
            r.same_settings(self),
            0 <= r.remaining() < self.remaining(),
            match self.phase {
                RecallPhase::Activating { hits, at, count: _ } => r.phase
                    == (RecallPhase::Activating { hits, at: (at + 1) as usize, count: None }),
                _ => false,
            },
    {
        match self.phase {
            RecallPhase::Activating { hits, at, count: _ } => {
                assert(hits@.len() == hits.len());
                RecallRun {
                    limit: self.limit,
                    min_sim: self.min_sim,
                    min_score: self.min_score,
                    phase: RecallPhase::Activating { hits, at: at + 1, count: None },
                }
            },
            _ => self,
        }
    }

    /// Enters the recall into the ledger with the mean strength of its hits.
    pub fn attributed(self, strength: Double, ledger: &mut RecallLedger) -> (r: RecallRun)
        requires
            self.valid(),
            self.asked() is Attribute,
            old(ledger).valid(),
        ensures
            r.valid(),
            r.same_settings(self),
            0 <= r.remaining() < self.remaining(),
            final(ledger).valid(),
            match self.phase {
                RecallPhase::Activating { hits, at, count: _ } => r.phase == (RecallPhase::Done {
                    hits,
                    recall_id: old(ledger).next_recall_id,
                }) && ledger_view(final(ledger).entries@) == entered(
                    ledger_view(old(ledger).entries@),
                    old(ledger).next_recall_id,
                    contributions(hits@.len() > 0, strength),
                ) && final(ledger).next_recall_id == id_after(old(ledger).next_recall_id)
                    && final(ledger).last_attributions@ == contributions(
                    hits@.len() > 0,
                    strength,
                ),
                _ => false,
            },
    {
        match self.phase {
            RecallPhase::Activating { hits, at: _, count: _ } => {
                let attributions = contributions_of(hits.len() > 0, strength);
                proof {
                    lemma_entered_by_value(ledger.entries@, ledger.next_recall_id, attributions);
                }
                let recall_id: u64 = ledger.record(attributions);
                RecallRun {
                    limit: self.limit,
                    min_sim: self.min_sim,
                    min_score: self.min_score,
                    phase: RecallPhase::Done { hits, recall_id },
                }
            },
            _ => self,
        }
    }
}

proof fn lemma_none_relevant(
    results: Seq<ResonanceResult>,
    effective: Seq<Double>,
    min_sim: Double,
    min_score: Double,
)
    ensures
        relevant_hits(results, effective, min_sim, min_score).len() == 0 <==> forall|i: int|
            0 <= i < results.len() ==> !clears_floor(
                #[trigger] results[i],
                effective[i],
                min_sim,
                min_score,
            ),
    decreases results.len(),
{
    if results.len() > 0 {
        let fewer = results.drop_last();
        let last = results.len() - 1;
        lemma_none_relevant(fewer, effective, min_sim, min_score);
        if relevant_hits(results, effective, min_sim, min_score).len() == 0 {
            assert forall|i: int| 0 <= i < results.len() implies !clears_floor(
                #[trigger] results[i],
                effective[i],
                min_sim,
                min_score,
            ) by {
                if i < last {
                    assert(fewer[i] == results[i]);
                }
            }
        } else if relevant_hits(fewer, effective, min_sim, min_score).len() == 0 {
            assert(clears_floor(results[last], effective[last], min_sim, min_score));
        } else {
            let i = choose|i: int|
                0 <= i < fewer.len() && clears_floor(
                    #[trigger] fewer[i],
                    effective[i],
                    min_sim,
                    min_score,
                );
            assert(clears_floor(results[i], effective[i], min_sim, min_score));
        }
    }
}

/// A recall shows nothing, and answers that it does not know, exactly where no
/// candidate clears the floors.
pub proof fn nothing_relevant_is_not_known(
    results: Seq<ResonanceResult>,
    effective: Seq<Double>,
    min_sim: Double,
    min_score: Double,
    limit: nat,
    hits: Seq<ResonanceResult>,
    shown: Seq<JsonView>,
    recall_id: Option<u64>,
)
    requires
        limit > 0,
        is_top(relevant_hits(results, effective, min_sim, min_score), limit, hits),
        shown.len() == hits.len(),
    ensures
        (forall|i: int|
            0 <= i < results.len() ==> !clears_floor(
                #[trigger] results[i],
                effective[i],
                min_sim,
                min_score,
            )) <==> field(recall_view(shown, recall_id), "message"@) == Some(
            JsonView::Text("I don't know"@),
        ),
{
    broadcast use lemma_lookup_push;

    lemma_none_relevant(results, effective, min_sim, min_score);
    let relevant = relevant_hits(results, effective, min_sim, min_score);
    let sorted = choose|sorted: Seq<ResonanceResult>|
        #![trigger is_ranked(relevant, score_keys(relevant), sorted)]
        is_ranked(relevant, score_keys(relevant), sorted) && hits == at_most(sorted, limit);
    assert(sorted.len() == relevant.len());
    reveal_strlit("message");
    reveal_strlit("results");
    reveal_strlit("recall_id");
    assert("message"@[0] != "results"@[0]);
    assert("message"@.len() != "recall_id"@.len());
}

/// Whatever a recall shows is one of the candidates that the search found, and
/// cleared the floors.
pub proof fn recalled_memories_were_found(
    candidates: Seq<EngramCandidate>,
    alignments: Seq<Double>,
    scores: Seq<Resonance>,
    min_sim: Double,
    min_score: Double,
    limit: nat,
    hits: Seq<ResonanceResult>,
    k: int,
)
    requires
        candidates.len() == alignments.len(),
        candidates.len() == scores.len(),
        is_top(
            relevant_hits(
                results_of(candidates, alignments, scores),
                effective_of(scores),
                min_sim,
                min_score,
            ),
            limit,
            hits,
        ),
        0 <= k < hits.len(),
    ensures
        exists|i: int|
            #![trigger candidates[i]]
            0 <= i < candidates.len() && hits[k] == result_of(
                candidates[i],
                alignments[i],
                scores[i],
            ) && clears_floor(hits[k], scores[i].effective, min_sim, min_score),
{
    let results = results_of(candidates, alignments, scores);
    let effective = effective_of(scores);
    let relevant = relevant_hits(results, effective, min_sim, min_score);
    let sorted = choose|sorted: Seq<ResonanceResult>|
        #![trigger is_ranked(relevant, score_keys(relevant), sorted)]
        is_ranked(relevant, score_keys(relevant), sorted) && hits == at_most(sorted, limit);
    let order = choose|order: Seq<int>| #[trigger]
        is_ranking(score_keys(relevant), order) && is_reordered(relevant, order, sorted);
    let p = order[k];
    assert(sorted[k] == relevant[p]);
    shown_hits_are_relevant(results, effective, min_sim, min_score, p);
    let i = choose|i: int|
        #![trigger results[i]]
        0 <= i < results.len() && relevant[p] == results[i] && clears_floor(
            results[i],
            effective[i],
            min_sim,
            min_score,
        );
    assert(results[i] == result_of(candidates[i], alignments[i], scores[i]));
}

/// A floor that is set to a number is the floor; where none is set, or no number,
/// it is 0.70 for the relevance and 0.0 for the score.
pub proof fn floors_are_taken_as_set(v: Double, default: u64)
    ensures
        !v.nan() ==> floor_of(Some(v), default) == v,
        floor_of(None, DEFAULT_MIN_SIM).bits == 0x3FE6_6666_6666_6666,
        floor_of(None, DEFAULT_MIN_SCORE).bits == 0,
        v.nan() ==> floor_of(Some(v), default) == floor_of(None, default),
{
}

/// A candidate and its result are the same memory: its id, text, charge and
/// importance are the candidate's, its alignment is the one that was read for it,
/// and the rest is its own score.
pub proof fn results_are_their_candidates(
    candidates: Seq<EngramCandidate>,
    alignments: Seq<Double>,
    scores: Seq<Resonance>,
    k: int,
)
    requires
        0 <= k < candidates.len(),
        candidates.len() == alignments.len(),
        candidates.len() == scores.len(),
    ensures
        results_of(candidates, alignments, scores).len() == candidates.len(),
        results_of(candidates, alignments, scores)[k].engram_id == candidates[k].id,
        results_of(candidates, alignments, scores)[k].episode_raw == candidates[k].episode_raw,
        results_of(candidates, alignments, scores)[k].emotional_charge
            == candidates[k].emotional_charge,
        results_of(candidates, alignments, scores)[k].importance_score
            == candidates[k].importance_score,
        results_of(candidates, alignments, scores)[k].identity_alignment == alignments[k],
        results_of(candidates, alignments, scores)[k].resonance_score == scores[k].resonance_score,
        results_of(candidates, alignments, scores)[k].semantic_sim == scores[k].semantic_sim,
        results_of(candidates, alignments, scores)[k].recency_weight == scores[k].recency_weight,
        results_of(candidates, alignments, scores)[k].reward_score == scores[k].reward_score,
        results_of(candidates, alignments, scores)[k].reward_factor == scores[k].reward_factor,
        effective_of(scores).len() == scores.len(),
        effective_of(scores)[k] == scores[k].effective,
{
}

/// A recall with hits attributes their mean strength to the first pathway and
/// nothing to the others; one without hits attributes nothing.
pub proof fn hits_credit_their_pathway(any: bool, strength: Double, i: int)
    requires
        0 <= i < 8,
    ensures
        contributions(any, strength).len() == 8,
        any ==> contributions(any, strength)[0] == strength,
        i > 0 || !any ==> contributions(any, strength)[i] == (Double { bits: 0 }),
{
}

/// A recalled memory counts one more activation, up to the largest number.
pub proof fn recalls_count_once(reply: JsonView)
    ensures
        activation_in(reply) < i64::MAX ==> activated_once_more(reply) == activation_in(reply) + 1,
        activation_in(reply) == i64::MAX ==> activated_once_more(reply) == i64::MAX,
{
}

/// A search asks for as many candidates as the recall may show.
pub proof fn searches_ask_for_the_limit(limit: usize)
    ensures
        limit <= i64::MAX ==> fetched(limit) == limit,
        limit > i64::MAX ==> fetched(limit) == i64::MAX,
{
}

/// While candidates lack an alignment, the recall asks for the next one's; then it
/// asks for the scores.
pub proof fn every_candidate_is_aligned(run: RecallRun)
    requires
        run.valid(),
        run.phase is Aligning,
    ensures
        run.phase->candidates@.len() > run.phase->alignments@.len() ==> run.asked()
            == (RecallRequest::Align {
            engram: saturated_value(
                run.phase->candidates@[run.phase->alignments@.len() as int].id,
            ),
        }),
        run.phase->candidates@.len() == run.phase->alignments@.len() ==> run.asked()
            == RecallRequest::Score,
{
}

/// While hits are not activated, the recall asks for the activation of the next
/// one, and stores it once it is known; then it attributes.
pub proof fn every_hit_is_activated(run: RecallRun)
    requires
        run.valid(),
        run.phase is Activating,
    ensures
        run.phase->Activating_count matches Some(n) ==> run.asked()
            == (RecallRequest::WriteActivation {
            engram: saturated_value(
                run.phase->Activating_hits@[run.phase->at as int].engram_id,
            ),
            count: n,
        }),
        run.phase->Activating_count is None && run.phase->at < run.phase->Activating_hits@.len()
            ==> run.asked() == (RecallRequest::ReadActivation {
            engram: saturated_value(
                run.phase->Activating_hits@[run.phase->at as int].engram_id,
            ),
        }),
        run.phase->Activating_count is None && run.phase->at == run.phase->Activating_hits@.len()
            ==> run.asked() == RecallRequest::Attribute,
{
}

/// With a floor above zero a recall answers that it does not know exactly where
/// every candidate is below the floor in its effective relevance or below the score
/// floor in its resonance.
pub proof fn irrelevant_recalls_are_not_known(
    results: Seq<ResonanceResult>,
    effective: Seq<Double>,
    min_sim: Double,
    min_score: Double,
    limit: nat,
    hits: Seq<ResonanceResult>,
    shown: Seq<JsonView>,
    recall_id: Option<u64>,
)
    requires
        limit > 0,
        (Double { bits: 0 }).lt(min_sim),
        is_top(relevant_hits(results, effective, min_sim, min_score), limit, hits),
        shown.len() == hits.len(),
    ensures
        (forall|i: int|
            0 <= i < results.len() ==> effective[i].lt(min_sim) || (
            #[trigger] results[i]).resonance_score.lt(min_score)) <==> field(
            recall_view(shown, recall_id),
            "message"@,
        ) == Some(JsonView::Text("I don't know"@)),
{
    nothing_relevant_is_not_known(
        results,
        effective,
        min_sim,
        min_score,
        limit,
        hits,
        shown,
        recall_id,
    );
    assert forall|i: int| 0 <= i < results.len() implies (effective[i].lt(min_sim) || (
    #[trigger] results[i]).resonance_score.lt(min_score)) == !clears_floor(
        results[i],
        effective[i],
        min_sim,
        min_score,
    ) by {
    }
}

} // verus!
