//! The protocol tools: recall, store, contradiction check and consolidate.

use crate::contradiction::{is_candidate, pair_candidate, PairMeasure};
use crate::double::Double;
use crate::json::{
    field, items_view, lemma_lookup_push, list, no_fields, number_or_null, optional_number,
    text_view, Json, JsonNumber,
    JsonView, ObjectBuilder,
};
use crate::text::{lowered, same, to_lower};
use crate::types::{ConsolidationReport, EngramType};
use vstd::prelude::*;

verus! {

/// How many memories a recall shows where no limit is given.
pub const DEFAULT_RECALL_LIMIT: usize = 5;

/// The most memories that a recall shows.
pub const MAX_RECALL_LIMIT: usize = 50;

/// How many memories a contradiction check compares a claim with.
pub const CONTRADICTION_SEARCH_LIMIT: i64 = 5;

/// How many memories a recall shows: five unless told otherwise, never more than
/// fifty.
pub fn effective_recall_limit(raw: Option<usize>) -> (r: usize)
    ensures
        r == match raw {
            Some(n) => if n <= MAX_RECALL_LIMIT {
                n
            } else {
                MAX_RECALL_LIMIT
            },
            None => DEFAULT_RECALL_LIMIT,
        },
        r <= MAX_RECALL_LIMIT,
{
    match raw {
        Some(n) => if n <= MAX_RECALL_LIMIT {
            n
        } else {
            MAX_RECALL_LIMIT
        },
        None => DEFAULT_RECALL_LIMIT,
    }
}

/// The importance of a word: 0.2, 0.5 or 0.85 for `low`, `medium` and `high`,
/// none for `auto`, and 0.5 for any other.
pub open spec fn importance_named(raw: Option<Seq<char>>) -> Option<Double> {
    match raw {
        None => None,
        Some(s) => {
            let n = lowered(s);
            if n == "auto"@ {
                None
            } else if n == "low"@ {
                Some(Double { bits: 0x3FC9_9999_9999_999A })
            } else if n == "high"@ {
                Some(Double { bits: 0x3FEB_3333_3333_3333 })
            } else {
                Some(Double { bits: 0x3FE0_0000_0000_0000 })
            }
        },
    }
}

/// The importance that `store` is given; none leaves it to the scorer.
pub fn map_importance(raw: Option<&str>) -> (r: Option<Double>)
    ensures
        r == importance_named(text_view(raw)),
{
    match raw {
        None => None,
        Some(s) => {
            let n = to_lower(s);
            let n = n.as_str();
            if same(n, "auto") {
                None
            } else if same(n, "low") {
                Some(Double { bits: 0x3FC9_9999_9999_999A })
            } else if same(n, "high") {
                Some(Double { bits: 0x3FEB_3333_3333_3333 })
            } else {
                Some(Double { bits: 0x3FE0_0000_0000_0000 })
            }
        },
    }
}

/// The memory kind of a word; episodic where it names none.
pub open spec fn kind_named(raw: Option<Seq<char>>) -> EngramType {
    match raw {
        None => EngramType::Episodic,
        Some(s) => {
            let n = lowered(s);
            if n == "semantic"@ {
                EngramType::Semantic
            } else if n == "procedural"@ {
                EngramType::Procedural
            } else {
                EngramType::Episodic
            }
        },
    }
}

/// The memory kind that `store` is given.
pub fn parse_engram_type(raw: Option<&str>) -> (r: EngramType)
    ensures
        r == kind_named(text_view(raw)),
{
    match raw {
        None => EngramType::Episodic,
        Some(s) => {
            let n = to_lower(s);
            let n = n.as_str();
            if same(n, "semantic") {
                EngramType::Semantic
            } else if same(n, "procedural") {
                EngramType::Procedural
            } else {
                EngramType::Episodic
            }
        },
    }
}

/// Parameters of `recall`.
#[derive(Debug)]
pub struct RecallParams {
    pub query: String,
    pub limit: Option<usize>,
    /// Accepted, and without effect.
    pub memory_type: Option<String>,
    /// Accepted, and without effect.
    pub since: Option<String>,
}

/// Parameters of `store`.
#[derive(Debug)]
pub struct StoreParams {
    pub content: String,
    pub importance: Option<String>,
    pub memory_type: Option<String>,
}

/// Parameters of `contradiction_check`.
#[derive(Debug)]
pub struct ContradictionCheckParams {
    pub claim: String,
}

/// Parameters of `consolidate`.
#[derive(Debug)]
pub struct ConsolidateParams {
    pub aggressive: Option<bool>,
}

/// The payload of `recall`.
pub fn recall_payload(query: &str, limit: usize, memories: &str, recall_id: Option<u64>) -> (r: Json)
    ensures
        r@ == JsonView::Object(
            no_fields().push(("query"@, JsonView::Text(query@))).push(
                ("limit"@, JsonView::Number(JsonNumber::Unsigned(limit as u64))),
            ).push(("memories"@, JsonView::Text(memories@))).push(
                ("recall_id"@, number_or_null(recall_id)),
            ),
        ),
{
    ObjectBuilder::new().with("query", Json::text(query)).with(
        "limit",
        Json::number(limit as u64),
    ).with("memories", Json::text(memories)).with("recall_id", optional_number(recall_id)).done()
}

/// The payload of `consolidate`.
pub fn consolidate_payload(report: ConsolidationReport) -> (r: Json)
    ensures
        r@ == JsonView::Object(
            no_fields().push(("pruned"@, JsonView::Number(JsonNumber::Unsigned(report.pruned)))).push(
                ("compressed"@, JsonView::Number(JsonNumber::Unsigned(report.compressed))),
            ).push(("promoted"@, JsonView::Number(JsonNumber::Unsigned(report.promoted)))),
        ),
{
    ObjectBuilder::new().with("pruned", Json::number(report.pruned)).with(
        "compressed",
        Json::number(report.compressed),
    ).with("promoted", Json::number(report.promoted)).done()
}

/// A memory that a claim is compared with.
#[derive(Debug)]
pub struct ContradictionCandidate {
    pub id: u64,
    pub episode_raw: String,
    pub emotional_charge: Double,
    pub importance_score: Double,
}

/// The places of the candidates that are worth a verdict, in order.
pub open spec fn survivors(
    tone: Double,
    candidates: Seq<ContradictionCandidate>,
    measures: Seq<PairMeasure>,
) -> Seq<usize>
    decreases candidates.len(),
{
    if candidates.len() == 0 {
        Seq::empty()
    } else {
        let k = candidates.len() - 1;
        let before = survivors(tone, candidates.drop_last(), measures);
        if is_candidate(tone, candidates[k].emotional_charge, measures[k].gap, measures[k].sim) {
            before.push(k as usize)
        } else {
            before
        }
    }
}

/// A conflict as it is reported.
pub open spec fn conflict_view(c: ContradictionCandidate, explanation: Seq<char>) -> JsonView {
    JsonView::Object(
        no_fields().push(("engram_id"@, JsonView::Number(JsonNumber::Unsigned(c.id)))).push(
            ("episode"@, JsonView::Text(c.episode_raw@)),
        ).push(
            ("emotional_charge"@, JsonView::Number(JsonNumber::Float(c.emotional_charge))),
        ).push(
            ("importance"@, JsonView::Number(JsonNumber::Float(c.importance_score))),
        ).push(("explanation"@, JsonView::Text(explanation))),
    )
}

/// The report of a check.
pub open spec fn check_report(conflicts: Seq<JsonView>) -> JsonView {
    if conflicts.len() == 0 {
        JsonView::Object(
            no_fields().push(("found"@, JsonView::Bool(false))).push(
                ("message"@, JsonView::Text("no contradictions"@)),
            ),
        )
    } else {
        JsonView::Object(
            no_fields().push(("found"@, JsonView::Bool(true))).push(
                ("count"@, JsonView::Number(JsonNumber::Unsigned(conflicts.len() as u64))),
            ).push(("conflicts"@, JsonView::Array(conflicts))),
        )
    }
}

/// A contradiction check under way.
#[derive(Debug)]
pub struct CheckRun {
    pub candidates: Vec<ContradictionCandidate>,
    /// The places of the candidates that are worth a verdict.
    pub survivors: Vec<usize>,
    pub at: usize,
    pub conflicts: Vec<Json>,
}

impl CheckRun {
    pub open spec fn valid(&self) -> bool {
        &&& self.at <= self.survivors@.len()
        &&& self.conflicts@.len() <= self.at
        &&& forall|k: int|
            0 <= k < self.survivors@.len() ==> #[trigger] self.survivors@[k]
                < self.candidates@.len()
    }

    /// Begins to check a claim. `measures` compares it with each candidate.
    pub fn begin(
        tone: Double,
        candidates: Vec<ContradictionCandidate>,
        measures: &Vec<PairMeasure>,
    ) -> (r: CheckRun)
        requires
            measures@.len() == candidates@.len(),
        ensures
            r.valid(),
            r.candidates == candidates,
            r.survivors@ == survivors(tone, candidates@, measures@),
            r.at == 0,
            r.conflicts@.len() == 0,
    {
        let mut places: Vec<usize> = Vec::new();
        let mut i: usize = 0;
        while i < candidates.len()
            invariant
                i <= candidates@.len(),
                measures@.len() == candidates@.len(),
                places@ == survivors(tone, candidates@.take(i as int), measures@),
                forall|k: int|
                    0 <= k < places@.len() ==> #[trigger] places@[k] < candidates@.len(),
            decreases candidates@.len() - i,
        {
            assert(candidates@.take(i + 1).drop_last() =~= candidates@.take(i as int));
            let m: PairMeasure = measures[i];
            if pair_candidate(tone, candidates[i].emotional_charge, m.gap, m.sim).is_some() {
                places.push(i);
            }
            i += 1;
        }
        assert(candidates@.take(i as int) =~= candidates@);
        CheckRun { candidates, survivors: places, at: 0, conflicts: Vec::new() }
    }

    /// The place of the candidate to ask a verdict on; none when all are judged.
    pub fn request(&self) -> (r: Option<usize>)
        requires
            self.valid(),
        ensures
            r == if self.at < self.survivors@.len() {
                Some(self.survivors@[self.at as int])
            } else {
                None
            },
    {
        if self.at < self.survivors.len() {
            Some(self.survivors[self.at])
        } else {
            None
        }
    }

    /// `next` is this check after a verdict on the candidate at hand.
    pub open spec fn judged(&self, contradicts: bool, explanation: Seq<char>, next: CheckRun) -> bool {
        &&& next.candidates == self.candidates
        &&& next.survivors == self.survivors
        &&& next.at == self.at + 1
        &&& items_view(next.conflicts@) == if contradicts {
            items_view(self.conflicts@).push(
                conflict_view(
                    self.candidates@[self.survivors@[self.at as int] as int],
                    explanation,
                ),
            )
        } else {
            items_view(self.conflicts@)
        }
    }

    /// Takes the verdict on the candidate at hand.
    pub fn advance(self, contradicts: bool, explanation: &str) -> (r: CheckRun)
        requires
            self.valid(),
            self.at < self.survivors@.len(),
        ensures
            r.valid(),
            self.judged(contradicts, explanation@, r),
    {
        assert(self.survivors@.len() == self.survivors.len());
        let ghost before = self.conflicts@;
        let mut next = self;
        if contradicts {
            let c = &next.candidates[next.survivors[next.at]];
            let conflict = ObjectBuilder::new().with("engram_id", Json::number(c.id)).with(
                "episode",
                Json::text(c.episode_raw.as_str()),
            ).with(
                "emotional_charge",
                Json::Number(JsonNumber::Float(c.emotional_charge)),
            ).with("importance", Json::Number(JsonNumber::Float(c.importance_score))).with(
                "explanation",
                Json::text(explanation),
            ).done();
            let ghost added = conflict@;
            next.conflicts.push(conflict);
            assert(items_view(next.conflicts@) =~= items_view(before).push(added));
        }
        next.at = next.at + 1;
        next
    }

    /// The report of the check.
    pub fn report(self) -> (r: Json)
        ensures
            r@ == check_report(items_view(self.conflicts@)),
    {
        if self.conflicts.len() == 0 {
            ObjectBuilder::new().with("found", Json::Bool(false)).with(
                "message",
                Json::text("no contradictions"),
            ).done()
        } else {
            let count: u64 = self.conflicts.len() as u64;
            ObjectBuilder::new().with("found", Json::Bool(true)).with(
                "count",
                Json::number(count),
            ).with("conflicts", list(self.conflicts)).done()
        }
    }
}

/// The name of a memory kind reads back as the kind.
pub proof fn kinds_read_back(kind: EngramType)
    ensures
        kind_named(Some(kind.name())) == kind,
{
    reveal_strlit("episodic");
    reveal_strlit("semantic");
    reveal_strlit("procedural");
    assert(lowered(kind.name()) =~= kind.name());
    assert("semantic"@ != "procedural"@) by {
        assert("semantic"@.len() != "procedural"@.len());
    }
    assert("episodic"@ != "procedural"@) by {
        assert("episodic"@.len() != "procedural"@.len());
    }
    assert("episodic"@ != "semantic"@) by {
        assert("episodic"@[0] != "semantic"@[0]);
    }
}

/// A claim is compared with exactly the memories that are opposed to it in charge
/// and alike in meaning, in order.
pub proof fn checks_judge_what_is_opposed(
    tone: Double,
    candidates: Seq<ContradictionCandidate>,
    measures: Seq<PairMeasure>,
)
    requires
        candidates.len() == measures.len(),
        candidates.len() <= usize::MAX,
    ensures
        survivors(tone, candidates, measures) == Seq::new(
            candidates.len(),
            |k: int| k as usize,
        ).filter(
            |k: usize|
                is_candidate(
                    tone,
                    candidates[k as int].emotional_charge,
                    measures[k as int].gap,
                    measures[k as int].sim,
                ),
        ),
{
    lemma_survivors(tone, candidates, measures, candidates);
}

proof fn lemma_survivors(
    tone: Double,
    candidates: Seq<ContradictionCandidate>,
    measures: Seq<PairMeasure>,
    all: Seq<ContradictionCandidate>,
)
    requires
        candidates.len() <= all.len() <= usize::MAX,
        forall|k: int| 0 <= k < candidates.len() ==> #[trigger] candidates[k] == all[k],
    ensures
        survivors(tone, candidates, measures) == Seq::new(
            candidates.len(),
            |k: int| k as usize,
        ).filter(
            |k: usize|
                is_candidate(
                    tone,
                    all[k as int].emotional_charge,
                    measures[k as int].gap,
                    measures[k as int].sim,
                ),
        ),
    decreases candidates.len(),
{
    reveal(Seq::filter);
    let places = Seq::new(candidates.len(), |k: int| k as usize);
    if candidates.len() > 0 {
        let fewer = candidates.drop_last();
        assert(candidates[candidates.len() - 1] == all[candidates.len() - 1]);
        assert forall|k: int| 0 <= k < fewer.len() implies #[trigger] fewer[k] == all[k] by {
            assert(candidates[k] == all[k]);
        }
        lemma_survivors(tone, fewer, measures, all);
        assert(places.drop_last() =~= Seq::new(fewer.len(), |k: int| k as usize));
    }
}

/// A conflict names the memory it is with, in its own words, and says why.
pub proof fn conflicts_name_their_memory(c: ContradictionCandidate, explanation: Seq<char>)
    ensures
        field(conflict_view(c, explanation), "engram_id"@) == Some(
            JsonView::Number(JsonNumber::Unsigned(c.id)),
        ),
        field(conflict_view(c, explanation), "episode"@) == Some(JsonView::Text(c.episode_raw@)),
        field(conflict_view(c, explanation), "emotional_charge"@) == Some(
            JsonView::Number(JsonNumber::Float(c.emotional_charge)),
        ),
        field(conflict_view(c, explanation), "importance"@) == Some(
            JsonView::Number(JsonNumber::Float(c.importance_score)),
        ),
        field(conflict_view(c, explanation), "explanation"@) == Some(JsonView::Text(explanation)),
{
    broadcast use lemma_lookup_push;

    reveal_strlit("engram_id");
    reveal_strlit("episode");
    reveal_strlit("emotional_charge");
    reveal_strlit("importance");
    reveal_strlit("explanation");
    assert("engram_id"@.len() == 9);
    assert("episode"@.len() == 7);
    assert("emotional_charge"@.len() == 16);
    assert("importance"@.len() == 10);
    assert("explanation"@.len() == 11);
}

/// A check reports a contradiction exactly where a verdict found one, and then all
/// of them and how many there are.
pub proof fn checks_report_every_conflict(conflicts: Seq<JsonView>)
    requires
        conflicts.len() <= u64::MAX,
    ensures
        field(check_report(conflicts), "found"@) == Some(JsonView::Bool(conflicts.len() > 0)),
        conflicts.len() > 0 ==> field(check_report(conflicts), "conflicts"@) == Some(
            JsonView::Array(conflicts),
        ) && field(check_report(conflicts), "count"@) == Some(
            JsonView::Number(JsonNumber::Unsigned(conflicts.len() as u64)),
        ),
{
    broadcast use lemma_lookup_push;

    reveal_strlit("found");
    reveal_strlit("message");
    reveal_strlit("count");
    reveal_strlit("conflicts");
    assert("found"@.len() == 5 && "count"@.len() == 5);
    assert("found"@[0] != "count"@[0]);
    assert("message"@.len() == 7);
    assert("conflicts"@.len() == 9);
}

/// How many of the verdicts say that there is a contradiction.
pub open spec fn found_in(verdicts: Seq<(bool, Seq<char>)>) -> nat {
    verdicts.filter(|v: (bool, Seq<char>)| v.0).len()
}

/// A whole check reports one conflict for each verdict that found one. `runs` are
/// the states of the check, and `verdicts` the verdicts in turn.
pub proof fn checks_report_what_was_found(runs: Seq<CheckRun>, verdicts: Seq<(bool, Seq<char>)>)
    requires
        runs.len() == verdicts.len() + 1,
        runs[0].at == 0,
        runs[0].conflicts@.len() == 0,
        forall|i: int|
            0 <= i < verdicts.len() ==> runs[i].judged(
                (#[trigger] verdicts[i]).0,
                verdicts[i].1,
                runs[i + 1],
            ),
    ensures
        runs.last().conflicts@.len() == found_in(verdicts),
        runs.last().at == verdicts.len(),
        runs.last().survivors == runs[0].survivors,
        runs.last().candidates == runs[0].candidates,
    decreases verdicts.len(),
{
    reveal(Seq::filter);
    if verdicts.len() > 0 {
        let fewer = verdicts.drop_last();
        let earlier = runs.drop_last();
        assert forall|i: int| 0 <= i < fewer.len() implies earlier[i].judged(
            (#[trigger] fewer[i]).0,
            fewer[i].1,
            earlier[i + 1],
        ) by {
            assert(fewer[i] == verdicts[i]);
        }
        checks_report_what_was_found(earlier, fewer);
        let n = verdicts.len() - 1;
        let last = verdicts[n];
        assert(items_view(runs[n].conflicts@).len() == runs[n].conflicts@.len());
        assert(items_view(runs[n + 1].conflicts@).len() == runs[n + 1].conflicts@.len());
    }
}

/// The words for an importance, in any case: low is 0.2 and high 0.85, `auto` and
/// no word leave it to the scorer, and any other is a half.
pub proof fn importance_goes_by_its_word(s: Seq<char>)
    ensures
        importance_named(None) is None,
        lowered(s) == "auto"@ <==> importance_named(Some(s)) is None,
        lowered(s) == "low"@ ==> importance_named(Some(s)) == Some(
            Double { bits: 0x3FC9_9999_9999_999A },
        ),
        lowered(s) == "high"@ ==> importance_named(Some(s)) == Some(
            Double { bits: 0x3FEB_3333_3333_3333 },
        ),
        lowered(s) != "auto"@ && lowered(s) != "low"@ && lowered(s) != "high"@
            ==> importance_named(Some(s)) == Some(Double { bits: 0x3FE0_0000_0000_0000 }),
{
    reveal_strlit("auto");
    reveal_strlit("low");
    reveal_strlit("high");
    assert("auto"@.len() == 4 && "auto"@[0] == 'a');
    assert("low"@.len() == 3);
    assert("high"@.len() == 4 && "high"@[0] == 'h');
}

} // verus!
