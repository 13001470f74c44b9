//! Contradictions between the engrams of one concept: a filter on charges and
//! similarity, a verdict from a chat model, and the write-back of what it
//! confirms.

use crate::double::Double;
use crate::error::{ErrorView, MnemosError, Outcome};
use crate::ids::{node_param, MAX_PARAM};
use crate::llm::{has_pair, is_slice, slice_of};
use crate::text::{decimal, show_u64};
use vstd::prelude::*;

verus! {

/// The bits of 0.6: charges of candidates lie further apart than this.
pub const EMOTIONAL_GAP_THRESHOLD: u64 = 0x3FE3_3333_3333_3333;

/// The bits of 0.7: candidates are more alike than this.
pub const SIMILARITY_THRESHOLD: u64 = 0x3FE6_6666_6666_6666;

/// Which side a charge is on. Zero is a side of its own.
pub open spec fn side(charge: Double) -> int {
    if charge.rank() < 0 {
        -1
    } else if charge.rank() == 0 {
        0
    } else {
        1
    }
}

/// Both charges are numbers, and they are on different sides.
pub open spec fn opposed(a: Double, b: Double) -> bool {
    !a.nan() && !b.nan() && side(a) != side(b)
}

/// A pair is a candidate when its charges are on different sides, their gap is
/// above its threshold, and the similarity of the embeddings is above its own.
pub open spec fn is_candidate(a: Double, b: Double, gap: Double, sim: Double) -> bool {
    &&& opposed(a, b)
    &&& (Double { bits: EMOTIONAL_GAP_THRESHOLD }).lt(gap)
    &&& (Double { bits: SIMILARITY_THRESHOLD }).lt(sim)
}

fn on_different_sides(a: Double, b: Double) -> (r: bool)
    ensures
        r == opposed(a, b),
{
    let zero = Double { bits: 0 };
    if a.is_nan() || b.is_nan() {
        false
    } else if a.less(zero) {
        !b.less(zero)
    } else if zero.less(a) {
        !zero.less(b)
    } else {
        b.less(zero) || zero.less(b)
    }
}

/// The similarity of a pair that is worth a verdict. `gap` is the distance of
/// the charges, `sim` the cosine similarity of the embeddings.
pub fn pair_candidate(a: Double, b: Double, gap: Double, sim: Double) -> (r: Option<Double>)
    ensures
        r == if is_candidate(a, b, gap, sim) {
            Some(sim)
        } else {
            None
        },
{
    let far = (Double { bits: EMOTIONAL_GAP_THRESHOLD }).less(gap);
    let alike = (Double { bits: SIMILARITY_THRESHOLD }).less(sim);
    if on_different_sides(a, b) && far && alike {
        Some(sim)
    } else {
        None
    }
}

/// The filter does not depend on the order of a pair.
pub proof fn candidates_are_symmetric(a: Double, b: Double, gap: Double, sim: Double)
    ensures
        is_candidate(a, b, gap, sim) == is_candidate(b, a, gap, sim),
{
}

/// The distance of charges and the similarity of embeddings of one pair.
#[derive(Clone, Copy, Debug, PartialEq, Eq, Structural)]
pub struct PairMeasure {
    pub gap: Double,
    pub sim: Double,
}

/// One row of measures for each engram but the last: its pairs with the engrams
/// after it.
pub open spec fn measures_fit(charges: Seq<Double>, measures: Seq<Vec<PairMeasure>>) -> bool {
    &&& measures.len() == charges.len()
    &&& forall|i: int|
        0 <= i < charges.len() ==> (#[trigger] measures[i])@.len() == charges.len() - 1 - i
}

/// The pair `(i, j)` is worth a verdict.
pub open spec fn pair_passes(
    charges: Seq<Double>,
    measures: Seq<Vec<PairMeasure>>,
    i: int,
    j: int,
) -> bool {
    let m = measures[i]@[j - i - 1];
    is_candidate(charges[i], charges[j], m.gap, m.sim)
}

/// The pairs `(i, i + 1)` to `(i, to - 1)` that pass, in order.
pub open spec fn pairs_in_row(
    charges: Seq<Double>,
    measures: Seq<Vec<PairMeasure>>,
    i: int,
    to: int,
) -> Seq<(usize, usize)>
    decreases to - i,
{
    if to <= i + 1 {
        Seq::empty()
    } else {
        let before = pairs_in_row(charges, measures, i, to - 1);
        if pair_passes(charges, measures, i, to - 1) {
            before.push((i as usize, (to - 1) as usize))
        } else {
            before
        }
    }
}

/// The pairs that pass whose first member is before `to`, in order.
pub open spec fn pairs_before(
    charges: Seq<Double>,
    measures: Seq<Vec<PairMeasure>>,
    to: int,
) -> Seq<(usize, usize)>
    decreases to,
{
    if to <= 0 {
        Seq::empty()
    } else {
        pairs_before(charges, measures, to - 1) + pairs_in_row(
            charges,
            measures,
            to - 1,
            charges.len() as int,
        )
    }
}

/// All pairs that are worth a verdict, each once, in order.
pub fn candidate_pairs(charges: &Vec<Double>, measures: &Vec<Vec<PairMeasure>>) -> (r: Vec<
    (usize, usize),
>)
    requires
        measures_fit(charges@, measures@),
    ensures
        r@ == pairs_before(charges@, measures@, charges@.len() as int),
        forall|k: int|
            0 <= k < r@.len() ==> (#[trigger] r@[k]).0 < r@[k].1 && r@[k].1 < charges@.len(),
{
    let mut out: Vec<(usize, usize)> = Vec::new();
    let n: usize = charges.len();
    let mut i: usize = 0;
    while i < n
        invariant
            n == charges@.len(),
            i <= n,
            measures_fit(charges@, measures@),
            out@ == pairs_before(charges@, measures@, i as int),
            forall|k: int| 0 <= k < out@.len() ==> (#[trigger] out@[k]).0 < out@[k].1 && out@[k].1 < n,
        decreases n - i,
    {
        let ghost rows = out@;
        let mut j: usize = i + 1;
        assert(out@ =~= rows + pairs_in_row(charges@, measures@, i as int, j as int));
        while j < n
            invariant
                n == charges@.len(),
                i < j <= n,
                measures_fit(charges@, measures@),
                out@ == rows + pairs_in_row(charges@, measures@, i as int, j as int),
                forall|k: int|
                    0 <= k < out@.len() ==> (#[trigger] out@[k]).0 < out@[k].1 && out@[k].1 < n,
            decreases n - j,
        {
            let m: PairMeasure = measures[i][j - i - 1];
            let ghost before = pairs_in_row(charges@, measures@, i as int, j as int);
            if pair_candidate(charges[i], charges[j], m.gap, m.sim).is_some() {
                out.push((i, j));
                assert(out@ =~= rows + before.push((i, j)));
            }
            j += 1;
        }
        i += 1;
    }
    out
}

proof fn lemma_row(
    charges: Seq<Double>,
    measures: Seq<Vec<PairMeasure>>,
    i: int,
    to: int,
    a: int,
    b: int,
)
    requires
        0 <= i < charges.len(),
        to <= charges.len() <= usize::MAX,
        0 <= a < b < charges.len(),
    ensures
        pairs_in_row(charges, measures, i, to).contains((a as usize, b as usize)) <==> a == i && b
            < to && pair_passes(charges, measures, a, b),
    decreases to - i,
{
    let row = pairs_in_row(charges, measures, i, to);
    let pair = (a as usize, b as usize);
    if to > i + 1 {
        lemma_row(charges, measures, i, to - 1, a, b);
        let before = pairs_in_row(charges, measures, i, to - 1);
        let last = (i as usize, (to - 1) as usize);
        lemma_contains_push(before, last, pair);
    }
}

proof fn lemma_contains_push(s: Seq<(usize, usize)>, x: (usize, usize), y: (usize, usize))
    ensures
        s.push(x).contains(y) <==> s.contains(y) || x == y,
{
    if s.contains(y) {
        let k = choose|k: int| 0 <= k < s.len() && s[k] == y;
        assert(s.push(x)[k] == y);
    }
    if x == y {
        assert(s.push(x)[s.len() as int] == y);
    }
}

proof fn lemma_rows(
    charges: Seq<Double>,
    measures: Seq<Vec<PairMeasure>>,
    to: int,
    a: int,
    b: int,
)
    requires
        to <= charges.len() <= usize::MAX,
        0 <= a < b < charges.len(),
    ensures
        pairs_before(charges, measures, to).contains((a as usize, b as usize)) <==> a < to
            && pair_passes(charges, measures, a, b),
    decreases to,
{
    let pair = (a as usize, b as usize);
    if to > 0 {
        lemma_rows(charges, measures, to - 1, a, b);
        lemma_row(charges, measures, to - 1, charges.len() as int, a, b);
        let before = pairs_before(charges, measures, to - 1);
        let row = pairs_in_row(charges, measures, to - 1, charges.len() as int);
        let all = before + row;
        if before.contains(pair) {
            let k = choose|k: int| 0 <= k < before.len() && before[k] == pair;
            assert(all[k] == pair);
        }
        if row.contains(pair) {
            let k = choose|k: int| 0 <= k < row.len() && row[k] == pair;
            assert(all[before.len() + k] == pair);
        }
        if all.contains(pair) {
            let k = choose|k: int| 0 <= k < all.len() && all[k] == pair;
            if k < before.len() {
                assert(before[k] == pair);
            } else {
                assert(row[k - before.len()] == pair);
            }
        }
    }
}

/// A scan judges a pair exactly where the two are opposed in charge and alike in
/// meaning.
pub proof fn scans_judge_what_is_opposed(
    charges: Seq<Double>,
    measures: Seq<Vec<PairMeasure>>,
    a: int,
    b: int,
)
    requires
        charges.len() <= usize::MAX,
        measures_fit(charges, measures),
        0 <= a < b < charges.len(),
    ensures
        pairs_before(charges, measures, charges.len() as int).contains((a as usize, b as usize))
            <==> is_candidate(
            charges[a],
            charges[b],
            measures[a]@[b - a - 1].gap,
            measures[a]@[b - a - 1].sim,
        ),
{
    lemma_rows(charges, measures, charges.len() as int, a, b);
}

/// A verdict on two statements.
#[derive(Debug)]
pub struct ContradictionVerdict {
    pub contradicts: bool,
    pub explanation: String,
}

/// How often a verdict is asked for.
pub const VERDICT_ATTEMPTS: usize = 2;

/// A verdict being asked for.
#[derive(Debug)]
pub struct VerifyRun {
    pub base: String,
    pub prompt: String,
    pub attempt: usize,
}

/// What to do after a reply that did not parse.
#[derive(Debug)]
pub enum VerifyStep {
    Ask { run: VerifyRun },
    Fail { error: MnemosError },
}

/// Judges pairs over a chat model.
#[derive(Debug)]
pub struct ContradictionDetector<L> {
    pub llm: L,
}

impl<L> ContradictionDetector<L> {
    /// A detector over a chat model.
    pub fn new(llm: L) -> (r: ContradictionDetector<L>)
        ensures
            r.llm == llm,
    {
        ContradictionDetector { llm }
    }

    /// The similarity of a pair that is worth a verdict; see [`pair_candidate`].
    pub fn embedding_candidate(a: Double, b: Double, gap: Double, sim: Double) -> (r: Option<Double>)
        ensures
            r == if is_candidate(a, b, gap, sim) {
                Some(sim)
            } else {
                None
            },
    {
        pair_candidate(a, b, gap, sim)
    }

    /// Begins to ask whether two statements contradict each other.
    pub fn verify_pair(&self, text_a: &str, text_b: &str) -> (r: VerifyRun)
        ensures
            r.valid(),
            r.attempt == 1,
            r.prompt@ == r.base@,
            r.base@
                == "Compare these two statements. Do they contradict each other about the same specific topic, or are they about different aspects? Return JSON: {\"contradicts\": true/false, \"explanation\": \"why or why not\"}\n\nStatement A: "@
                + text_a@ + "\nStatement B: "@ + text_b@,
    {
        let base =
            "Compare these two statements. Do they contradict each other about the same specific topic, or are they about different aspects? Return JSON: {\"contradicts\": true/false, \"explanation\": \"why or why not\"}\n\nStatement A: ".to_owned().concat(
        text_a).concat("\nStatement B: ").concat(text_b);
        let prompt = base.clone();
        VerifyRun { base, prompt, attempt: 1 }
    }
}

impl VerifyRun {
    pub open spec fn valid(&self) -> bool {
        1 <= self.attempt <= VERDICT_ATTEMPTS
    }

    /// Takes a reply that did not parse, with the parser's words.
    pub fn unparsed(self, error: &str, raw: &str) -> (r: VerifyStep)
        requires
            self.valid(),
        ensures
            if self.attempt < VERDICT_ATTEMPTS {
                r matches VerifyStep::Ask { run } && run.valid() && run.base@ == self.base@
                    && run.attempt == self.attempt + 1 && run.prompt@ == self.base@
                    + "\n\nYour previous response was not valid JSON ("@ + error@
                    + "). Reply with ONLY a JSON object like {\"contradicts\": true, \"explanation\": \"...\"} and no other text.\nPrevious response:\n"@
                    + raw@
            } else {
                r matches VerifyStep::Fail { error: e } && e@ == ErrorView::Llm(
                    "verify_pair: no parseable verdict after 2 attempts: "@ + error@,
                )
            },
    {
        if self.attempt < VERDICT_ATTEMPTS {
            let prompt = self.base.clone().concat(
                "\n\nYour previous response was not valid JSON (",
            ).concat(error).concat(
                "). Reply with ONLY a JSON object like {\"contradicts\": true, \"explanation\": \"...\"} and no other text.\nPrevious response:\n",
            ).concat(raw);
            VerifyStep::Ask { run: VerifyRun { base: self.base, prompt, attempt: self.attempt + 1 } }
        } else {
            VerifyStep::Fail {
                error: MnemosError::Llm(
                    "verify_pair: no parseable verdict after 2 attempts: ".to_owned().concat(error),
                ),
            }
        }
    }
}

/// The JSON object in a reply that may hold prose around it, else the reply.
pub fn extract_json(raw: &str) -> (r: &str)
    ensures
        if has_pair(raw@, '{', '}') {
            is_slice(raw@, '{', '}', r@)
        } else {
            r@ == raw@
        },
{
    match slice_of(raw, '{', '}') {
        Some(part) => part,
        None => raw,
    }
}

/// Where the handling of a confirmed pair stands.
#[derive(Clone, Copy, Debug, PartialEq, Eq, Structural)]
pub enum ScanStage {
    /// The pair at hand has no verdict yet.
    Judging,
    /// The pair is confirmed and not linked yet.
    Linking,
    /// The pair is linked and its first engram not flagged yet.
    FlaggingFirst,
    /// Only the second engram is left to flag.
    FlaggingSecond,
}

/// What a scan asks for next.
#[derive(Clone, Copy, Debug, PartialEq, Eq, Structural)]
pub enum ScanRequest {
    /// Ask for a verdict on the engrams at these places.
    Judge { first: usize, second: usize },
    /// Store a `Contradicts` edge.
    Link { from: i64, to: i64 },
    /// Set the contradiction flag.
    Flag { engram: i64 },
    /// Nothing is left.
    Finish,
}

/// What came of a request.
#[derive(Clone, Copy, Debug, PartialEq, Eq, Structural)]
pub enum ScanReply {
    Judged { contradicts: bool },
    Stored,
}

/// A scan of one concept under way.
#[derive(Debug)]
pub struct ScanRun {
    pub concept_id: u64,
    /// The ids of the engrams, by place.
    pub ids: Vec<u64>,
    /// The pairs that are worth a verdict.
    pub pairs: Vec<(usize, usize)>,
    /// The pair at hand.
    pub at: usize,
    pub stage: ScanStage,
    /// The verdicts so far.
    pub verdicts: Vec<bool>,
    /// The pairs confirmed so far, by id.
    pub confirmed: Vec<(u64, u64)>,
}

/// The pairs whose verdict is that they contradict each other, in order.
pub open spec fn upheld(pairs: Seq<(u64, u64)>, verdicts: Seq<bool>) -> Seq<(u64, u64)>
    decreases verdicts.len(),
{
    if verdicts.len() == 0 {
        Seq::empty()
    } else {
        let before = upheld(pairs, verdicts.drop_last());
        if verdicts.last() {
            before.push(pairs[verdicts.len() - 1])
        } else {
            before
        }
    }
}

impl ScanRun {
    /// The ids of the `k`-th pair.
    pub open spec fn ids_of(&self, k: int) -> (u64, u64) {
        (self.ids@[self.pairs@[k].0 as int], self.ids@[self.pairs@[k].1 as int])
    }

    /// The pairs by id.
    pub open spec fn id_pairs(&self) -> Seq<(u64, u64)> {
        Seq::new(self.pairs@.len(), |k: int| self.ids_of(k))
    }

    /// The pairs are places of engrams, each pair before the one at hand has a
    /// verdict, and exactly those that contradict each other are confirmed. The
    /// pair at hand has a verdict only while it is being confirmed.
    pub open spec fn valid(&self) -> bool {
        &&& self.at <= self.pairs@.len()
        &&& self.at == self.pairs@.len() ==> self.stage == ScanStage::Judging
        &&& if self.stage == ScanStage::Judging {
            self.verdicts@.len() == self.at
        } else {
            self.verdicts@.len() == self.at + 1 && self.verdicts@.last()
        }
        &&& self.confirmed@ == upheld(self.id_pairs(), self.verdicts@.take(self.at as int))
        &&& forall|k: int|
            0 <= k < self.pairs@.len() ==> (#[trigger] self.pairs@[k]).0 < self.ids@.len()
                && self.pairs@[k].1 < self.ids@.len()
    }

    /// The ids of the pair at hand.
    pub open spec fn pair_ids(&self) -> (u64, u64) {
        self.ids_of(self.at as int)
    }

    /// The request at hand, or the id that does not fit a query.
    pub open spec fn asked(&self) -> Result<ScanRequest, u64> {
        if self.at >= self.pairs@.len() {
            Ok(ScanRequest::Finish)
        } else {
            let pair = self.pairs@[self.at as int];
            let (a, b) = self.pair_ids();
            match self.stage {
                ScanStage::Judging => Ok(ScanRequest::Judge { first: pair.0, second: pair.1 }),
                ScanStage::Linking => if a > MAX_PARAM {
                    Err(a)
                } else if b > MAX_PARAM {
                    Err(b)
                } else {
                    Ok(ScanRequest::Link { from: a as i64, to: b as i64 })
                },
                ScanStage::FlaggingFirst => if a > MAX_PARAM {
                    Err(a)
                } else {
                    Ok(ScanRequest::Flag { engram: a as i64 })
                },
                ScanStage::FlaggingSecond => if b > MAX_PARAM {
                    Err(b)
                } else {
                    Ok(ScanRequest::Flag { engram: b as i64 })
                },
            }
        }
    }

    /// There is a request, and the reply fits it.
    pub open spec fn expects(&self, reply: ScanReply) -> bool {
        &&& self.asked() is Ok
        &&& self.at < self.pairs@.len()
        &&& (self.stage == ScanStage::Judging) == (reply is Judged)
    }

    /// An upper bound on the requests that are still to come.
    pub open spec fn remaining(&self) -> int {
        let after = 4 * (self.pairs@.len() - self.at);
        match self.stage {
            ScanStage::Judging => after,
            ScanStage::Linking => after - 1,
            ScanStage::FlaggingFirst => after - 2,
            ScanStage::FlaggingSecond => after - 3,
        }
    }

    /// Begins a scan of the engrams of a concept: of the pairs among them that are
    /// worth a verdict.
    pub fn begin(
        concept_id: u64,
        ids: Vec<u64>,
        charges: &Vec<Double>,
        measures: &Vec<Vec<PairMeasure>>,
    ) -> (r: ScanRun)
        requires
            ids@.len() == charges@.len(),
            measures_fit(charges@, measures@),
        ensures
            r.valid(),
            r.concept_id == concept_id,
            r.ids == ids,
            r.pairs@ == pairs_before(charges@, measures@, charges@.len() as int),
            r.at == 0,
            r.stage == ScanStage::Judging,
            r.verdicts@ == Seq::<bool>::empty(),
            r.confirmed@ == Seq::<(u64, u64)>::empty(),
    {
        let pairs = candidate_pairs(charges, measures);
        let r = ScanRun {
            concept_id,
            ids,
            pairs,
            at: 0,
            stage: ScanStage::Judging,
            verdicts: Vec::new(),
            confirmed: Vec::new(),
        };
        assert(r.verdicts@.take(0) =~= Seq::empty());
        r
    }

    /// What to do next. Fails where the id of an engram does not fit a query.
    pub fn request(&self) -> (r: Outcome<ScanRequest>)
        requires
            self.valid(),
        ensures
            match r {
                Ok(request) => self.asked() == Ok::<ScanRequest, u64>(request),
                Err(e) => match self.asked() {
                    Ok(_) => false,
                    Err(id) => e@ == ErrorView::Storage(
                        "node id out of range: "@ + decimal(id as nat),
                    ),
                },
            },
    {
        if self.at >= self.pairs.len() {
            return Ok(ScanRequest::Finish);
        }
        let (first, second) = self.pairs[self.at];
        match self.stage {
            ScanStage::Judging => Ok(ScanRequest::Judge { first, second }),
            ScanStage::Linking => {
                let from: i64 = match node_param(self.ids[first]) {
                    Ok(n) => n,
                    Err(e) => {
                        return Err(e);
                    },
                };
                match node_param(self.ids[second]) {
                    Ok(to) => Ok(ScanRequest::Link { from, to }),
                    Err(e) => Err(e),
                }
            },
            ScanStage::FlaggingFirst => match node_param(self.ids[first]) {
                Ok(engram) => Ok(ScanRequest::Flag { engram }),
                Err(e) => Err(e),
            },
            ScanStage::FlaggingSecond => match node_param(self.ids[second]) {
                Ok(engram) => Ok(ScanRequest::Flag { engram }),
                Err(e) => Err(e),
            },
        }
    }

    /// `next` is this scan after `reply`.
    pub open spec fn went_on(&self, reply: ScanReply, next: ScanRun) -> bool {
        &&& next.concept_id == self.concept_id
        &&& next.ids == self.ids
        &&& next.pairs == self.pairs
        &&& next.verdicts@ == match reply {
            ScanReply::Judged { contradicts } => self.verdicts@.push(contradicts),
            ScanReply::Stored => self.verdicts@,
        }
        &&& match self.stage {
            ScanStage::Judging => next.confirmed == self.confirmed && (if reply->contradicts {
                next.at == self.at && next.stage == ScanStage::Linking
            } else {
                next.at == self.at + 1 && next.stage == ScanStage::Judging
            }),
            ScanStage::Linking => next.confirmed == self.confirmed && next.at == self.at
                && next.stage == ScanStage::FlaggingFirst,
            ScanStage::FlaggingFirst => next.confirmed == self.confirmed && next.at == self.at
                && next.stage == ScanStage::FlaggingSecond,
            ScanStage::FlaggingSecond => next.confirmed@ == self.confirmed@.push(self.pair_ids())
                && next.at == self.at + 1 && next.stage == ScanStage::Judging,
        }
    }

    /// Takes the reply to the request at hand. A pair counts as confirmed once
    /// its edge and both flags are stored.
    pub fn advance(self, reply: ScanReply) -> (r: ScanRun)
        requires
            self.valid(),
            self.expects(reply),
        ensures
            r.valid(),
            r.remaining() < self.remaining(),
            self.went_on(reply, r),
    {
        assert(self.pairs@.len() == self.pairs.len());
        let ghost before = self;
        let mut next = self;
        match next.stage {
            ScanStage::Judging => {
                let contradicts: bool = match reply {
                    ScanReply::Judged { contradicts } => contradicts,
                    ScanReply::Stored => false,
                };
                next.verdicts.push(contradicts);
                if contradicts {
                    next.stage = ScanStage::Linking;
                    assert(next.verdicts@.take(next.at as int) =~= before.verdicts@.take(
                        before.at as int,
                    ));
                } else {
                    next.at = next.at + 1;
                    assert(next.verdicts@.take(next.at as int).drop_last()
                        =~= before.verdicts@.take(before.at as int));
                }
            },
            ScanStage::Linking => {
                next.stage = ScanStage::FlaggingFirst;
            },
            ScanStage::FlaggingFirst => {
                next.stage = ScanStage::FlaggingSecond;
            },
            ScanStage::FlaggingSecond => {
                let (first, second) = next.pairs[next.at];
                next.confirmed.push((next.ids[first], next.ids[second]));
                next.at = next.at + 1;
                next.stage = ScanStage::Judging;
                assert(next.verdicts@.take(next.at as int).drop_last() =~= before.verdicts@.take(
                    before.at as int,
                ));
                assert(next.id_pairs()[before.at as int] == before.pair_ids());
            },
        }
        assert(next.id_pairs() =~= before.id_pairs());
        next
    }

    /// The line that telemetry keeps of a finished scan.
    pub fn summary(&self) -> (r: String)
        ensures
            r@ == "concept="@ + decimal(self.concept_id as nat) + " engrams="@ + decimal(
                self.ids@.len(),
            ) + " candidates="@ + decimal(self.pairs@.len()) + " confirmed="@ + decimal(
                self.confirmed@.len(),
            ),
    {
        let concept = show_u64(self.concept_id);
        let engrams = show_u64(self.ids.len() as u64);
        let candidates = show_u64(self.pairs.len() as u64);
        let confirmed = show_u64(self.confirmed.len() as u64);
        "concept=".to_owned().concat(concept.as_str()).concat(" engrams=").concat(
            engrams.as_str(),
        ).concat(" candidates=").concat(candidates.as_str()).concat(" confirmed=").concat(
            confirmed.as_str(),
        )
    }
}

/// A finished scan has a verdict on every pair that was worth one, and has
/// confirmed exactly those that contradict each other, in order.
pub proof fn finished_scan_confirms_what_was_upheld(run: ScanRun)
    requires
        run.valid(),
        run.asked() == Ok::<ScanRequest, u64>(ScanRequest::Finish),
    ensures
        run.verdicts@.len() == run.pairs@.len(),
        run.confirmed@ == upheld(run.id_pairs(), run.verdicts@),
{
    assert(run.verdicts@.take(run.at as int) =~= run.verdicts@);
}

/// A scan that has judged every pair asks for nothing more.
pub proof fn scan_ends_when_all_are_judged(run: ScanRun)
    requires
        run.valid(),
    ensures
        run.remaining() >= 0,
        run.remaining() == 0 <==> run.asked() == Ok::<ScanRequest, u64>(ScanRequest::Finish),
{
}

/// Memories on the same side of zero never contradict each other, however far apart
/// their charges and however alike they are.
pub proof fn same_sides_never_contradict(a: Double, b: Double, gap: Double, sim: Double)
    requires
        ((Double { bits: 0 }).lt(a) && (Double { bits: 0 }).lt(b)) || (a.lt(Double { bits: 0 })
            && b.lt(Double { bits: 0 })),
    ensures
        !is_candidate(a, b, gap, sim),
{
}

/// A charge above zero and one at or below it contradict each other, and so do one
/// below zero and one at or above it, exactly where their gap is above 0.6 and their
/// similarity above 0.7.
pub proof fn opposite_sides_contradict_when_alike(
    a: Double,
    b: Double,
    gap: Double,
    sim: Double,
)
    requires
        ((Double { bits: 0 }).lt(a) && b.le(Double { bits: 0 })) || (a.lt(Double { bits: 0 }) && (
        Double { bits: 0 }).le(b)),
    ensures
        is_candidate(a, b, gap, sim) <==> (Double { bits: 0x3FE3_3333_3333_3333 }).lt(gap) && (
        Double { bits: 0x3FE6_6666_6666_6666 }).lt(sim),
{
}

/// Two charges of zero, or one that is no number, contradict nothing.
pub proof fn neutral_pairs_never_contradict(a: Double, b: Double, gap: Double, sim: Double)
    requires
        a.nan() || b.nan() || (a.same_number(Double { bits: 0 }) && b.same_number(
            Double { bits: 0 },
        )),
    ensures
        !is_candidate(a, b, gap, sim),
{
}

/// What is upheld is exactly the pairs whose verdict is that they contradict each
/// other, in order.
pub proof fn upheld_by_verdict(pairs: Seq<(u64, u64)>, verdicts: Seq<bool>)
    requires
        verdicts.len() <= pairs.len(),
    ensures
        upheld(pairs, verdicts) == Seq::new(
            verdicts.len(),
            |k: int| (pairs[k], verdicts[k]),
        ).filter(|v: ((u64, u64), bool)| v.1).map_values(|v: ((u64, u64), bool)| v.0),
    decreases verdicts.len(),
{
    reveal(Seq::filter);
    let all = Seq::new(verdicts.len(), |k: int| (pairs[k], verdicts[k]));
    let yes = |v: ((u64, u64), bool)| v.1;
    let pair = |v: ((u64, u64), bool)| v.0;
    if verdicts.len() > 0 {
        let fewer = verdicts.drop_last();
        upheld_by_verdict(pairs, fewer);
        let before = Seq::new(fewer.len(), |k: int| (pairs[k], fewer[k]));
        assert(all.drop_last() =~= before);
        assert(before.filter(yes).push(all.last()).map_values(pair) =~= before.filter(
            yes,
        ).map_values(pair).push(all.last().0));
    } else {
        assert(all.filter(yes).map_values(pair) =~= Seq::empty());
    }
}

/// `runs` are the states of a whole scan, and `replies` what came of each request.
pub open spec fn is_scan(runs: Seq<ScanRun>, replies: Seq<ScanReply>) -> bool {
    &&& runs.len() == replies.len() + 1
    &&& runs[0].at == 0
    &&& runs[0].stage == ScanStage::Judging
    &&& forall|i: int| 0 <= i < runs.len() ==> (#[trigger] runs[i]).valid()
    &&& forall|i: int|
        0 <= i < replies.len() ==> runs[i].expects(#[trigger] replies[i]) && runs[i].went_on(
            replies[i],
            runs[i + 1],
        )
    &&& runs.last().asked() == Ok::<ScanRequest, u64>(ScanRequest::Finish)
}

proof fn lemma_scan_goes_on(runs: Seq<ScanRun>, replies: Seq<ScanReply>, i: int)
    requires
        is_scan(runs, replies),
        0 <= i < runs.len(),
        runs[i].at < runs[i].pairs@.len(),
    ensures
        i < replies.len(),
        runs[i].expects(replies[i]),
        runs[i].went_on(replies[i], runs[i + 1]),
        runs[i].valid(),
        runs[i + 1].valid(),
{
    assert(runs[i].valid());
    if i == runs.len() - 1 {
        assert(runs.last() == runs[i]);
        let (a, b) = runs[i].pair_ids();
    } else {
        let reply = replies[i];
        assert(runs[i + 1].valid());
    }
}

proof fn lemma_scan_task(runs: Seq<ScanRun>, replies: Seq<ScanReply>, i: int)
    requires
        is_scan(runs, replies),
        0 <= i < runs.len(),
    ensures
        runs[i].pairs == runs[0].pairs,
        runs[i].ids == runs[0].ids,
    decreases i,
{
    if i > 0 {
        lemma_scan_task(runs, replies, i - 1);
        let reply = replies[i - 1];
    }
}

proof fn lemma_pair_reached(runs: Seq<ScanRun>, replies: Seq<ScanReply>, k: int) -> (p: int)
    requires
        is_scan(runs, replies),
        0 <= k < runs[0].pairs@.len(),
    ensures
        0 <= p < runs.len(),
        runs[p].at == k,
        runs[p].stage == ScanStage::Judging,
    decreases k,
{
    if k == 0 {
        0
    } else {
        let before = lemma_pair_reached(runs, replies, k - 1);
        lemma_scan_task(runs, replies, before);
        lemma_scan_goes_on(runs, replies, before);
        if replies[before]->contradicts {
            lemma_scan_task(runs, replies, before + 1);
            lemma_scan_goes_on(runs, replies, before + 1);
            lemma_scan_goes_on(runs, replies, before + 2);
            lemma_scan_goes_on(runs, replies, before + 3);
            before + 4
        } else {
            before + 1
        }
    }
}

/// A whole scan judges every pair that is worth it, and links and flags both
/// memories of each pair that is found to contradict.
pub proof fn every_pair_is_judged(runs: Seq<ScanRun>, replies: Seq<ScanReply>, k: int) -> (p: int)
    requires
        is_scan(runs, replies),
        0 <= k < runs[0].pairs@.len(),
    ensures
        0 <= p < replies.len(),
        runs[p].asked() == Ok::<ScanRequest, u64>(
            ScanRequest::Judge { first: runs[0].pairs@[k].0, second: runs[0].pairs@[k].1 },
        ),
        replies[p] is Judged,
        replies[p]->contradicts ==> {
            let a = runs[0].ids@[runs[0].pairs@[k].0 as int];
            let b = runs[0].ids@[runs[0].pairs@[k].1 as int];
            &&& a <= i64::MAX
            &&& b <= i64::MAX
            &&& p + 4 < runs.len()
            &&& runs[p + 1].asked() == Ok::<ScanRequest, u64>(
                ScanRequest::Link { from: a as i64, to: b as i64 },
            )
            &&& runs[p + 2].asked() == Ok::<ScanRequest, u64>(
                ScanRequest::Flag { engram: a as i64 },
            )
            &&& runs[p + 3].asked() == Ok::<ScanRequest, u64>(
                ScanRequest::Flag { engram: b as i64 },
            )
            &&& runs[p + 4].confirmed@ == runs[p].confirmed@.push((a, b))
        },
        !replies[p]->contradicts ==> p + 1 < runs.len() && runs[p + 1].confirmed
            == runs[p].confirmed && runs[p + 1].at == k + 1,
{
    let p = lemma_pair_reached(runs, replies, k);
    lemma_scan_task(runs, replies, p);
    lemma_scan_goes_on(runs, replies, p);
    if replies[p]->contradicts {
        lemma_scan_task(runs, replies, p + 1);
        lemma_scan_goes_on(runs, replies, p + 1);
        lemma_scan_goes_on(runs, replies, p + 2);
        lemma_scan_goes_on(runs, replies, p + 3);
    }
    p
}

/// The pairs of a scan come once each, in the order of their places.
pub proof fn pairs_come_once(charges: Seq<Double>, measures: Seq<Vec<PairMeasure>>, a: int, b: int)
    requires
        charges.len() <= usize::MAX,
        0 <= a < b < pairs_before(charges, measures, charges.len() as int).len(),
    ensures
        ({
            let x = pairs_before(charges, measures, charges.len() as int)[a];
            let y = pairs_before(charges, measures, charges.len() as int)[b];
            x.0 < y.0 || (x.0 == y.0 && x.1 < y.1)
        }),
{
    lemma_rows_ascend(charges, measures, charges.len() as int);
}

proof fn lemma_row_ascends(charges: Seq<Double>, measures: Seq<Vec<PairMeasure>>, i: int, to: int)
    requires
        0 <= i < charges.len() <= usize::MAX,
        to <= charges.len(),
    ensures
        forall|k: int|
            0 <= k < pairs_in_row(charges, measures, i, to).len() ==> (#[trigger] pairs_in_row(
                charges,
                measures,
                i,
                to,
            )[k]).0 == i && pairs_in_row(charges, measures, i, to)[k].1 < to,
        forall|a: int, b: int|
            0 <= a < b < pairs_in_row(charges, measures, i, to).len() ==> (#[trigger] pairs_in_row(
                charges,
                measures,
                i,
                to,
            )[a]).1 < (#[trigger] pairs_in_row(charges, measures, i, to)[b]).1,
    decreases to - i,
{
    if to > i + 1 {
        lemma_row_ascends(charges, measures, i, to - 1);
        let before = pairs_in_row(charges, measures, i, to - 1);
        let row = pairs_in_row(charges, measures, i, to);
        assert forall|k: int| 0 <= k < row.len() implies (#[trigger] row[k]).0 == i && row[k].1
            < to by {
            if k < before.len() {
                assert(row[k] == before[k]);
            }
        }
        assert forall|a: int, b: int| 0 <= a < b < row.len() implies (#[trigger] row[a]).1 < (
        #[trigger] row[b]).1 by {
            assert(row[a] == before[a]);
            if b < before.len() {
                assert(row[b] == before[b]);
            }
        }
    }
}

proof fn lemma_rows_ascend(charges: Seq<Double>, measures: Seq<Vec<PairMeasure>>, to: int)
    requires
        to <= charges.len() <= usize::MAX,
    ensures
        forall|k: int|
            0 <= k < pairs_before(charges, measures, to).len() ==> (#[trigger] pairs_before(
                charges,
                measures,
                to,
            )[k]).0 < to,
        forall|a: int, b: int|
            #![trigger pairs_before(charges, measures, to)[a], pairs_before(charges, measures, to)[b]]
            0 <= a < b < pairs_before(charges, measures, to).len() ==> {
                let x = pairs_before(charges, measures, to)[a];
                let y = pairs_before(charges, measures, to)[b];
                x.0 < y.0 || (x.0 == y.0 && x.1 < y.1)
            },
    decreases to,
{
    if to > 0 {
        lemma_rows_ascend(charges, measures, to - 1);
        lemma_row_ascends(charges, measures, to - 1, charges.len() as int);
        let before = pairs_before(charges, measures, to - 1);
        let row = pairs_in_row(charges, measures, to - 1, charges.len() as int);
        let all = pairs_before(charges, measures, to);
        assert(all == before + row);
        assert forall|k: int| 0 <= k < all.len() implies (#[trigger] all[k]).0 < to by {
            if k < before.len() {
                assert(all[k] == before[k]);
            } else {
                assert(all[k] == row[k - before.len()]);
            }
        }
        assert forall|a: int, b: int|
            #![trigger all[a], all[b]]
            0 <= a < b < all.len() implies all[a].0 < all[b].0 || (all[a].0 == all[b].0 && all[a].1
            < all[b].1) by {
            if b < before.len() {
                assert(all[a] == before[a] && all[b] == before[b]);
            } else if a < before.len() {
                assert(all[a] == before[a]);
                assert(all[b] == row[b - before.len()]);
            } else {
                assert(all[a] == row[a - before.len()]);
                assert(all[b] == row[b - before.len()]);
            }
        }
    }
}

/// A scan stays with its concept, its memories and its pairs to the end.
pub proof fn scans_stay_with_their_concept(runs: Seq<ScanRun>, replies: Seq<ScanReply>, i: int)
    requires
        is_scan(runs, replies),
        0 <= i < runs.len(),
    ensures
        runs[i].concept_id == runs[0].concept_id,
        runs[i].ids == runs[0].ids,
        runs[i].pairs == runs[0].pairs,
    decreases i,
{
    if i > 0 {
        scans_stay_with_their_concept(runs, replies, i - 1);
        assert(runs[i - 1].went_on(replies[i - 1], runs[i]));
    }
}

/// A pair is judged, linked and flagged under the ids of its two memories; an id
/// that no query can take is an error.
pub proof fn scans_ask_about_the_pair_at_hand(run: ScanRun)
    requires
        run.valid(),
        run.at < run.pairs@.len(),
    ensures
        ({
            let (x, y) = run.pairs@[run.at as int];
            let a = run.ids@[x as int];
            let b = run.ids@[y as int];
            &&& run.stage is Judging ==> run.asked() == Ok::<ScanRequest, u64>(
                ScanRequest::Judge { first: x, second: y },
            )
            &&& run.stage is Linking ==> run.asked() == if a > i64::MAX {
                Err::<ScanRequest, u64>(a)
            } else if b > i64::MAX {
                Err(b)
            } else {
                Ok(ScanRequest::Link { from: a as i64, to: b as i64 })
            }
            &&& run.stage is FlaggingFirst ==> run.asked() == if a > i64::MAX {
                Err::<ScanRequest, u64>(a)
            } else {
                Ok(ScanRequest::Flag { engram: a as i64 })
            }
            &&& run.stage is FlaggingSecond ==> run.asked() == if b > i64::MAX {
                Err::<ScanRequest, u64>(b)
            } else {
                Ok(ScanRequest::Flag { engram: b as i64 })
            }
        }),
{
}

} // verus!
