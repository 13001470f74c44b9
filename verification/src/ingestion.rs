//! Ingestion: one memory becomes an engram, linked to its concepts and, where it
//! continues a sequence, to the memory before it.

use crate::double::Double;
use crate::error::{ErrorView, MnemosError, Outcome};
use crate::ids::{json_row_id, node_id, parse_node_id, row_id, to_i64, MAX_PARAM};
use crate::json::{field, Json, JsonNumber, JsonView};
use crate::scoring::{clamp_importance, PLUS_ONE};
use crate::text::{decimal, same};
use crate::types::{EngramType, ExtractedConcept};
use vstd::prelude::*;

verus! {

/// The bits of 0.05, the decay rate of a new engram.
pub const DEFAULT_DECAY_RATE: u64 = 0x3FA9_9999_9999_999A;

/// The compression level of a new engram.
pub const COMPRESSION_LEVEL_RAW: i64 = 0;

/// The activation count of a new engram.
pub const INITIAL_ACTIVATION_COUNT: i64 = 0;

/// The count that a JSON value writes: a whole number, or a finite one cut to it.
pub open spec fn count_of(j: JsonView) -> Option<i64> {
    match j {
        JsonView::Number(JsonNumber::Unsigned(n)) => if n <= i64::MAX {
            Some(n as i64)
        } else {
            None
        },
        JsonView::Number(JsonNumber::Signed(i)) => Some(i),
        JsonView::Number(JsonNumber::Float(d)) => if d.finite() {
            Some(d.as_i64())
        } else {
            None
        },
        _ => None,
    }
}

/// Coerces a JSON count.
pub fn json_source_count(value: &Json) -> (r: Option<i64>)
    ensures
        r == count_of(value@),
{
    match value.as_number() {
        Some(JsonNumber::Unsigned(n)) => if n <= i64::MAX as u64 {
            Some(n as i64)
        } else {
            None
        },
        Some(JsonNumber::Signed(i)) => Some(i),
        Some(JsonNumber::Float(d)) => if d.is_finite() {
            Some(d.to_i64())
        } else {
            None
        },
        None => None,
    }
}

/// The count that a row carries.
pub open spec fn row_count(row: JsonView) -> Option<i64> {
    match field(row, "source_count"@) {
        Some(n) => count_of(n),
        None => None,
    }
}

fn json_row_count(row: &Json) -> (r: Option<i64>)
    ensures
        r == row_count(row@),
{
    match row.get("source_count") {
        Some(n) => json_source_count(n),
        None => None,
    }
}

/// The row under `concept`: the first of a list, or a single one.
pub open spec fn concept_row(reply: JsonView) -> Option<JsonView> {
    match field(reply, "concept"@) {
        Some(JsonView::Array(items)) => if items.len() > 0 {
            Some(items[0])
        } else {
            None
        },
        Some(JsonView::Object(entries)) => Some(JsonView::Object(entries)),
        _ => None,
    }
}

/// The concept that a lookup found, with its count where it has one.
pub open spec fn found_concept(reply: JsonView) -> Option<(u64, Option<i64>)> {
    match concept_row(reply) {
        Some(row) => match row_id(row) {
            Some(id) => Some((id, row_count(row))),
            None => None,
        },
        None => None,
    }
}

/// The concept that a lookup found, with its count where it has one.
pub fn parse_concept_lookup(reply: &Json) -> (r: Option<(u64, Option<i64>)>)
    ensures
        r == found_concept(reply@),
{
    let binding = match reply.get("concept") {
        Some(b) => b,
        None => {
            return None;
        },
    };
    let row = match binding.as_array() {
        Some(items) => {
            if items.len() == 0 {
                return None;
            }
            &items[0]
        },
        None => {
            if binding.as_entries().is_none() {
                return None;
            }
            binding
        },
    };
    match json_row_id(row) {
        Some(id) => Some((id, json_row_count(row))),
        None => None,
    }
}

/// The count that a reply about a concept carries: in its first row, in its
/// single row, or, without either, in the reply itself.
pub open spec fn reply_count(reply: JsonView) -> Option<i64> {
    match field(reply, "concept"@) {
        Some(JsonView::Array(items)) => if items.len() > 0 {
            row_count(items[0])
        } else {
            None
        },
        Some(JsonView::Object(entries)) => row_count(JsonView::Object(entries)),
        _ => row_count(reply),
    }
}

/// The count that a reply about a concept carries.
pub fn parse_source_count(reply: &Json) -> (r: Option<i64>)
    ensures
        r == reply_count(reply@),
{
    match reply.get("concept") {
        Some(binding) => match binding.as_array() {
            Some(items) => if items.len() > 0 {
                json_row_count(&items[0])
            } else {
                None
            },
            None => if binding.as_entries().is_some() {
                json_row_count(binding)
            } else {
                json_row_count(reply)
            },
        },
        None => json_row_count(reply),
    }
}

/// The edges from an engram to a concept.
#[derive(Clone, Copy, Debug, PartialEq, Eq, Structural)]
pub enum ConceptEdge {
    Recalls,
    AbstractsTo,
}

/// The edge of a label. Other labels are an error.
pub fn connect_edge(label: &str) -> (r: Outcome<ConceptEdge>)
    ensures
        match r {
            Ok(ConceptEdge::Recalls) => label@ == "Recalls"@,
            Ok(ConceptEdge::AbstractsTo) => label@ == "AbstractsTo"@ && label@ != "Recalls"@,
            Err(e) => label@ != "Recalls"@ && label@ != "AbstractsTo"@ && e@
                == ErrorView::Internal("unknown edge label: "@ + label@),
        },
{
    if same(label, "Recalls") {
        Ok(ConceptEdge::Recalls)
    } else if same(label, "AbstractsTo") {
        Ok(ConceptEdge::AbstractsTo)
    } else {
        Err(MnemosError::Internal("unknown edge label: ".to_owned().concat(label)))
    }
}

/// Where an ingestion stands. `k` is the concept at hand, `known` the count that
/// its lookup or creation showed.
#[derive(Clone, Copy, Debug, PartialEq, Eq, Structural)]
pub enum IngestStage {
    Tagging,
    Scoring { charge: Double },
    Embedding { charge: Double, importance: Double },
    Storing { charge: Double, importance: Double },
    Extracting { engram: u64 },
    LookingUp { engram: u64, k: usize },
    Creating { engram: u64, k: usize },
    Recalling { engram: u64, k: usize, concept: u64, known: Option<i64> },
    Abstracting { engram: u64, k: usize, concept: u64, known: Option<i64> },
    Counting { engram: u64, k: usize, concept: u64 },
    Raising { engram: u64, k: usize, concept: u64, current: i64 },
    Scanning { engram: u64, k: usize, concept: u64 },
    Chaining { engram: u64, prev: u64 },
    Done { engram: u64 },
}

/// What an ingestion asks for next.
#[derive(Clone, Copy, Debug, PartialEq, Eq, Structural)]
pub enum IngestRequest {
    /// Score the emotional charge of the text.
    Tag,
    /// Score the importance of the text.
    Score,
    /// Embed the text.
    Embed,
    /// Store the engram with its embedding.
    StoreEngram { charge: Double, importance: Double },
    /// Extract the concepts of the text.
    Extract,
    /// Look the `k`-th concept up by its name.
    LookUp { k: usize },
    /// Store the `k`-th concept, with a count of 0.
    CreateConcept { k: usize },
    /// Link the engram to the concept.
    Link { edge: ConceptEdge, engram: i64, concept: i64 },
    /// Read the concept's count.
    ReadCount { concept: i64 },
    /// Store the concept's count.
    SetCount { concept: i64, count: i64 },
    /// Scan the concept for contradictions; a failure changes nothing.
    Scan { concept_id: u64 },
    /// Link the memory before this one to it.
    Chain { from: i64, to: i64, pos: Option<i64> },
    Finish { engram_id: u64 },
}

/// What came of a request.
#[derive(Debug)]
pub enum IngestReply {
    Scored { value: Double },
    Done,
    /// A database reply, and the reply as text.
    Row { row: Json, shown: String },
    Extracted { concepts: Vec<ExtractedConcept> },
}

/// An ingestion under way.
#[derive(Debug)]
pub struct IngestRun {
    pub engram_type: EngramType,
    /// An importance given by hand.
    pub importance: Option<Double>,
    /// The memory that this one follows, and the place there.
    pub prev_id: Option<u64>,
    pub seq_pos: Option<i64>,
    pub concepts: Vec<ExtractedConcept>,
    pub stage: IngestStage,
}

/// An importance given by hand, held between 0 and 1.
pub open spec fn held_importance(value: Double) -> Double {
    if value.nan() {
        Double { bits: 0 }
    } else {
        value.bounded(Double { bits: 0 }, Double { bits: PLUS_ONE })
    }
}

/// One more, held at the largest number.
pub open spec fn one_more(n: i64) -> i64 {
    if n < i64::MAX {
        (n + 1) as i64
    } else {
        i64::MAX
    }
}

impl IngestRun {
    /// The concept at hand is one of the concepts.
    pub open spec fn valid(&self) -> bool {
        match self.stage {
            IngestStage::LookingUp { engram, k } | IngestStage::Creating { engram, k } => k
                < self.concepts@.len(),
            IngestStage::Recalling { engram, k, concept, known } => k < self.concepts@.len(),
            IngestStage::Abstracting { engram, k, concept, known } => k < self.concepts@.len(),
            IngestStage::Counting { engram, k, concept } => k < self.concepts@.len(),
            IngestStage::Raising { engram, k, concept, current } => k < self.concepts@.len(),
            IngestStage::Scanning { engram, k, concept } => k < self.concepts@.len(),
            _ => true,
        }
    }

    /// The stage that begins the `k`-th concept, or what follows the last.
    pub open spec fn at_concept(&self, engram: u64, k: int, concepts: nat) -> IngestStage {
        if k < concepts {
            IngestStage::LookingUp { engram, k: k as usize }
        } else {
            match self.prev_id {
                Some(prev) => IngestStage::Chaining { engram, prev },
                None => IngestStage::Done { engram },
            }
        }
    }

    /// The stage that follows a known count, or asks for one.
    pub open spec fn after_links(engram: u64, k: usize, concept: u64, known: Option<i64>) -> IngestStage {
        match known {
            Some(current) => IngestStage::Raising { engram, k, concept, current },
            None => IngestStage::Counting { engram, k, concept },
        }
    }

    /// The request at hand, or the id that does not fit a query.
    pub open spec fn asked(&self) -> Result<IngestRequest, u64> {
        match self.stage {
            IngestStage::Tagging => Ok(IngestRequest::Tag),
            IngestStage::Scoring { charge } => Ok(IngestRequest::Score),
            IngestStage::Embedding { charge, importance } => Ok(IngestRequest::Embed),
            IngestStage::Storing { charge, importance } => Ok(
                IngestRequest::StoreEngram { charge, importance },
            ),
            IngestStage::Extracting { engram } => Ok(IngestRequest::Extract),
            IngestStage::LookingUp { engram, k } => Ok(IngestRequest::LookUp { k }),
            IngestStage::Creating { engram, k } => Ok(IngestRequest::CreateConcept { k }),
            IngestStage::Recalling { engram, k, concept, known } => linked(
                ConceptEdge::Recalls,
                engram,
                concept,
            ),
            IngestStage::Abstracting { engram, k, concept, known } => linked(
                ConceptEdge::AbstractsTo,
                engram,
                concept,
            ),
            IngestStage::Counting { engram, k, concept } => if concept <= MAX_PARAM {
                Ok(IngestRequest::ReadCount { concept: concept as i64 })
            } else {
                Err(concept)
            },
            IngestStage::Raising { engram, k, concept, current } => if concept <= MAX_PARAM {
                Ok(IngestRequest::SetCount { concept: concept as i64, count: one_more(current) })
            } else {
                Err(concept)
            },
            IngestStage::Scanning { engram, k, concept } => Ok(IngestRequest::Scan { concept_id: concept }),
            IngestStage::Chaining { engram, prev } => if prev > MAX_PARAM {
                Err(prev)
            } else if engram > MAX_PARAM {
                Err(engram)
            } else {
                Ok(
                    IngestRequest::Chain {
                        from: prev as i64,
                        to: engram as i64,
                        pos: self.seq_pos,
                    },
                )
            },
            IngestStage::Done { engram } => Ok(IngestRequest::Finish { engram_id: engram }),
        }
    }

    /// There is a request, and the reply fits it.
    pub open spec fn expects(&self, reply: IngestReply) -> bool {
        &&& self.asked() is Ok
        &&& match self.stage {
            IngestStage::Tagging | IngestStage::Scoring { .. } => reply is Scored,
            IngestStage::Storing { .. } | IngestStage::LookingUp { .. }
            | IngestStage::Creating { .. } | IngestStage::Counting { .. } => reply is Row,
            IngestStage::Extracting { .. } => reply is Extracted,
            IngestStage::Done { .. } => false,
            _ => reply is Done,
        }
    }

    /// The stage after a reply; `None` where the reply lacks the id of a node.
    pub open spec fn stage_after(&self, reply: IngestReply) -> Option<IngestStage> {
        let n = self.concepts@.len();
        match self.stage {
            IngestStage::Tagging => match self.importance {
                Some(given) => Some(
                    IngestStage::Embedding {
                        charge: reply->value,
                        importance: held_importance(given),
                    },
                ),
                None => Some(IngestStage::Scoring { charge: reply->value }),
            },
            IngestStage::Scoring { charge } => Some(
                IngestStage::Embedding { charge, importance: reply->value },
            ),
            IngestStage::Embedding { charge, importance } => Some(
                IngestStage::Storing { charge, importance },
            ),
            IngestStage::Storing { charge, importance } => match node_id(reply->row@, true) {
                Some(engram) => Some(IngestStage::Extracting { engram }),
                None => None,
            },
            IngestStage::Extracting { engram } => Some(
                self.at_concept(engram, 0, reply->concepts@.len()),
            ),
            IngestStage::LookingUp { engram, k } => match found_concept(reply->row@) {
                Some((concept, known)) => Some(
                    IngestStage::Recalling { engram, k, concept, known },
                ),
                None => Some(IngestStage::Creating { engram, k }),
            },
            IngestStage::Creating { engram, k } => match node_id(reply->row@, true) {
                Some(concept) => Some(
                    IngestStage::Recalling { engram, k, concept, known: reply_count(reply->row@) },
                ),
                None => None,
            },
            IngestStage::Recalling { engram, k, concept, known } => Some(
                IngestStage::Abstracting { engram, k, concept, known },
            ),
            IngestStage::Abstracting { engram, k, concept, known } => Some(
                Self::after_links(engram, k, concept, known),
            ),
            IngestStage::Counting { engram, k, concept } => Some(
                IngestStage::Raising {
                    engram,
                    k,
                    concept,
                    current: match reply_count(reply->row@) {
                        Some(n) => n,
                        None => 0,
                    },
                },
            ),
            IngestStage::Raising { engram, k, concept, current } => Some(
                IngestStage::Scanning { engram, k, concept },
            ),
            IngestStage::Scanning { engram, k, concept } => Some(
                self.at_concept(engram, k + 1, n),
            ),
            IngestStage::Chaining { engram, prev } => Some(IngestStage::Done { engram }),
            IngestStage::Done { engram } => None,
        }
    }

    /// An upper bound on the requests that are still to come, once the concepts
    /// are known.
    pub open spec fn remaining(&self) -> int {
        let n = self.concepts@.len() as int;
        match self.stage {
            IngestStage::LookingUp { engram, k } => 8 * (n - k) + 1,
            IngestStage::Creating { engram, k } => 8 * (n - k),
            IngestStage::Recalling { engram, k, concept, known } => 8 * (n - k) - 1,
            IngestStage::Abstracting { engram, k, concept, known } => 8 * (n - k) - 2,
            IngestStage::Counting { engram, k, concept } => 8 * (n - k) - 3,
            IngestStage::Raising { engram, k, concept, current } => 8 * (n - k) - 4,
            IngestStage::Scanning { engram, k, concept } => 8 * (n - k) - 5,
            IngestStage::Chaining { engram, prev } => 1,
            IngestStage::Done { engram } => 0,
            _ => 8 * n + 6,
        }
    }

    /// The concepts are settled.
    pub open spec fn past_extraction(&self) -> bool {
        match self.stage {
            IngestStage::Tagging | IngestStage::Scoring { .. } | IngestStage::Embedding { .. }
            | IngestStage::Storing { .. } | IngestStage::Extracting { .. } => false,
            _ => true,
        }
    }

    /// Begins to ingest one memory.
    pub fn begin(
        engram_type: EngramType,
        importance: Option<Double>,
        prev_id: Option<u64>,
        seq_pos: Option<i64>,
    ) -> (r: IngestRun)
        ensures
            r.valid(),
            r.engram_type == engram_type,
            r.importance == importance,
            r.prev_id == prev_id,
            r.seq_pos == seq_pos,
            r.concepts@.len() == 0,
            r.stage == IngestStage::Tagging,
    {
        IngestRun {
            engram_type,
            importance,
            prev_id,
            seq_pos,
            concepts: Vec::new(),
            stage: IngestStage::Tagging,
        }
    }

    /// What to do next. Fails where the id of a node does not fit a query.
    pub fn request(&self) -> (r: Outcome<IngestRequest>)
        requires
            self.valid(),
        ensures
            match r {
                Ok(request) => self.asked() == Ok::<IngestRequest, u64>(request),
                Err(e) => match self.asked() {
                    Ok(_) => false,
                    Err(id) => e@ == ErrorView::Internal("node id overflow: "@ + decimal(id as nat)),
                },
            },
    {
        match self.stage {
            IngestStage::Tagging => Ok(IngestRequest::Tag),
            IngestStage::Scoring { .. } => Ok(IngestRequest::Score),
            IngestStage::Embedding { .. } => Ok(IngestRequest::Embed),
            IngestStage::Storing { charge, importance } => Ok(
                IngestRequest::StoreEngram { charge, importance },
            ),
            IngestStage::Extracting { .. } => Ok(IngestRequest::Extract),
            IngestStage::LookingUp { engram: _, k } => Ok(IngestRequest::LookUp { k }),
            IngestStage::Creating { engram: _, k } => Ok(IngestRequest::CreateConcept { k }),
            IngestStage::Recalling { engram, k: _, concept, known: _ } => link(
                ConceptEdge::Recalls,
                engram,
                concept,
            ),
            IngestStage::Abstracting { engram, k: _, concept, known: _ } => link(
                ConceptEdge::AbstractsTo,
                engram,
                concept,
            ),
            IngestStage::Counting { engram: _, k: _, concept } => match to_i64(concept) {
                Ok(concept) => Ok(IngestRequest::ReadCount { concept }),
                Err(e) => Err(e),
            },
            IngestStage::Raising { engram: _, k: _, concept, current } => match to_i64(concept) {
                Ok(concept) => {
                    let count: i64 = if current < i64::MAX {
                        current + 1
                    } else {
                        i64::MAX
                    };
                    Ok(IngestRequest::SetCount { concept, count })
                },
                Err(e) => Err(e),
            },
            IngestStage::Scanning { engram: _, k: _, concept } => Ok(
                IngestRequest::Scan { concept_id: concept },
            ),
            IngestStage::Chaining { engram, prev } => {
                let from: i64 = match to_i64(prev) {
                    Ok(n) => n,
                    Err(e) => {
                        return Err(e);
                    },
                };
                match to_i64(engram) {
                    Ok(to) => Ok(IngestRequest::Chain { from, to, pos: self.seq_pos }),
                    Err(e) => Err(e),
                }
            },
            IngestStage::Done { engram } => Ok(IngestRequest::Finish { engram_id: engram }),
        }
    }

    fn concept_stage(&self, engram: u64, k: usize, concepts: usize) -> (r: IngestStage)
        ensures
            r == self.at_concept(engram, k as int, concepts as nat),
    {
        if k < concepts {
            IngestStage::LookingUp { engram, k }
        } else {
            match self.prev_id {
                Some(prev) => IngestStage::Chaining { engram, prev },
                None => IngestStage::Done { engram },
            }
        }
    }

    /// `next` is this ingestion after `reply`.
    pub open spec fn went_on(&self, reply: IngestReply, next: IngestRun) -> bool {
        &&& self.stage_after(reply) == Some(next.stage)
        &&& next.engram_type == self.engram_type
        &&& next.importance == self.importance
        &&& next.prev_id == self.prev_id
        &&& next.seq_pos == self.seq_pos
        &&& next.concepts@ == if self.stage is Extracting {
            reply->concepts@
        } else {
            self.concepts@
        }
    }

    /// Takes the reply to the request at hand. Fails where a reply lacks the id
    /// of the node that it is about.
    pub fn advance(self, reply: IngestReply) -> (r: Outcome<IngestRun>)
        requires
            self.valid(),
            self.expects(reply),
        ensures
            match r {
                Ok(next) => {
                    &&& next.valid()
                    &&& self.went_on(reply, next)
                    &&& self.past_extraction() ==> next.past_extraction() && next.remaining()
                        < self.remaining()
                },
                Err(e) => self.stage_after(reply) is None && e@ == ErrorView::Storage(
                    "response missing node $id: "@ + reply->shown@,
                ),
            },
    {
        assert(self.concepts@.len() == self.concepts.len());
        let mut next = self;
        let stage = match (next.stage, reply) {
            (IngestStage::Tagging, IngestReply::Scored { value }) => match next.importance {
                Some(given) => IngestStage::Embedding {
                    charge: value,
                    importance: clamp_importance(given),
                },
                None => IngestStage::Scoring { charge: value },
            },
            (IngestStage::Scoring { charge }, IngestReply::Scored { value }) => IngestStage::Embedding {
                charge,
                importance: value,
            },
            (IngestStage::Embedding { charge, importance }, _) => IngestStage::Storing {
                charge,
                importance,
            },
            (IngestStage::Storing { .. }, IngestReply::Row { row, shown }) => match parse_node_id(
                &row,
                true,
                shown.as_str(),
            ) {
                Ok(engram) => IngestStage::Extracting { engram },
                Err(e) => {
                    return Err(e);
                },
            },
            (IngestStage::Extracting { engram }, IngestReply::Extracted { concepts }) => {
                let n: usize = concepts.len();
                next.concepts = concepts;
                next.concept_stage(engram, 0, n)
            },
            (
                IngestStage::LookingUp { engram, k },
                IngestReply::Row { row, shown: _ },
            ) => match parse_concept_lookup(&row) {
                Some((concept, known)) => IngestStage::Recalling { engram, k, concept, known },
                None => IngestStage::Creating { engram, k },
            },
            (IngestStage::Creating { engram, k }, IngestReply::Row { row, shown }) => match parse_node_id(
                &row,
                true,
                shown.as_str(),
            ) {
                Ok(concept) => IngestStage::Recalling {
                    engram,
                    k,
                    concept,
                    known: parse_source_count(&row),
                },
                Err(e) => {
                    return Err(e);
                },
            },
            (IngestStage::Recalling { engram, k, concept, known }, _) => IngestStage::Abstracting {
                engram,
                k,
                concept,
                known,
            },
            (IngestStage::Abstracting { engram, k, concept, known }, _) => match known {
                Some(current) => IngestStage::Raising { engram, k, concept, current },
                None => IngestStage::Counting { engram, k, concept },
            },
            (IngestStage::Counting { engram, k, concept }, IngestReply::Row { row, shown: _ }) => {
                let current: i64 = match parse_source_count(&row) {
                    Some(n) => n,
                    None => 0,
                };
                IngestStage::Raising { engram, k, concept, current }
            },
            (IngestStage::Raising { engram, k, concept, current: _ }, _) => IngestStage::Scanning {
                engram,
                k,
                concept,
            },
            (IngestStage::Scanning { engram, k, concept: _ }, _) => {
                let n: usize = next.concepts.len();
                next.concept_stage(engram, k + 1, n)
            },
            (IngestStage::Chaining { engram, prev: _ }, _) => IngestStage::Done { engram },
            (stage, _) => stage,
        };
        next.stage = stage;
        Ok(next)
    }
}

/// The request that links an engram to a concept, or the id that does not fit.
pub open spec fn linked(edge: ConceptEdge, engram: u64, concept: u64) -> Result<IngestRequest, u64> {
    if engram > MAX_PARAM {
        Err(engram)
    } else if concept > MAX_PARAM {
        Err(concept)
    } else {
        Ok(IngestRequest::Link { edge, engram: engram as i64, concept: concept as i64 })
    }
}

fn link(edge: ConceptEdge, engram: u64, concept: u64) -> (r: Outcome<IngestRequest>)
    ensures
        match r {
            Ok(request) => linked(edge, engram, concept) == Ok::<IngestRequest, u64>(request),
            Err(e) => match linked(edge, engram, concept) {
                Ok(_) => false,
                Err(id) => e@ == ErrorView::Internal("node id overflow: "@ + decimal(id as nat)),
            },
        },
{
    let engram: i64 = match to_i64(engram) {
        Ok(n) => n,
        Err(e) => {
            return Err(e);
        },
    };
    match to_i64(concept) {
        Ok(concept) => Ok(IngestRequest::Link { edge, engram, concept }),
        Err(e) => Err(e),
    }
}

/// An importance given by hand is never scored again: the run goes from the
/// charge straight to the embedding.
pub proof fn given_importance_skips_scoring(run: IngestRun, reply: IngestReply)
    requires
        run.stage == IngestStage::Tagging,
        run.expects(reply),
    ensures
        run.importance is Some <==> run.stage_after(reply) matches Some(
            IngestStage::Embedding { charge, importance },
        ),
{
}

/// A concept's count is raised only after both of its edges are stored.
pub proof fn count_follows_both_edges(run: IngestRun, reply: IngestReply)
    requires
        run.valid(),
        run.expects(reply),
        run.stage_after(reply) matches Some(s) && (s is Raising || s is Counting),
    ensures
        run.stage is Abstracting || run.stage is Counting,
{
}

/// After a concept comes the next one, until all are done; then the memory before
/// this one is linked, where there is one.
pub proof fn concepts_come_one_after_the_other(
    run: IngestRun,
    reply: IngestReply,
    engram: u64,
    k: usize,
    concept: u64,
)
    requires
        run.valid(),
        run.expects(reply),
    ensures
        run.stage == (IngestStage::Scanning { engram, k, concept }) && k + 1 < run.concepts@.len()
            ==> run.stage_after(reply) == Some(
            IngestStage::LookingUp { engram, k: (k + 1) as usize },
        ),
        run.stage == (IngestStage::Extracting { engram }) && reply->concepts@.len() > 0
            ==> run.stage_after(reply) == Some(IngestStage::LookingUp { engram, k: 0 }),
        run.stage == (IngestStage::Extracting { engram }) && reply->concepts@.len() == 0
            && run.prev_id is None ==> run.stage_after(reply) == Some(IngestStage::Done { engram }),
{
}

/// A count reads back however it is written, as long as it is a whole number that
/// fits.
pub proof fn counts_read_back(n: i64, m: u64)
    ensures
        count_of(JsonView::Number(JsonNumber::Signed(n))) == Some(n),
        m <= i64::MAX ==> count_of(JsonView::Number(JsonNumber::Unsigned(m))) == Some(m as i64),
        m > i64::MAX ==> count_of(JsonView::Number(JsonNumber::Unsigned(m))) is None,
{
}

/// A lookup that found the concept gives its id and its count, whether the store
/// answers with a list or with a single row; one that found nothing gives nothing.
pub proof fn lookups_give_what_was_found(
    reply: JsonView,
    row: JsonView,
    rest: Seq<JsonView>,
    id: u64,
    count: JsonView,
)
    requires
        row is Object,
        row_id(row) == Some(id),
        field(row, "source_count"@) == Some(count),
    ensures
        field(reply, "concept"@) == Some(JsonView::Array(seq![row] + rest)) || field(
            reply,
            "concept"@,
        ) == Some(row) ==> found_concept(reply) == Some((id, count_of(count))) && reply_count(reply)
            == count_of(count),
        field(reply, "concept"@) == Some(JsonView::Array(Seq::empty())) || field(
            reply,
            "concept"@,
        ) is None ==> found_concept(reply) is None,
{
    assert((seq![row] + rest)[0] == row);
}

/// An importance given by hand is kept where it lies from 0 to 1, and moved to the
/// nearer end where it does not; what is no number counts as 0.
pub proof fn given_importances_are_held(value: Double)
    ensures
        (Double { bits: 0 }).le(held_importance(value)),
        held_importance(value).le(Double { bits: 0x3FF0_0000_0000_0000 }),
        (Double { bits: 0 }).le(value) && value.le(Double { bits: 0x3FF0_0000_0000_0000 })
            ==> held_importance(value) == value,
        value.lt(Double { bits: 0 }) || value.nan() ==> held_importance(value).bits == 0,
        (Double { bits: 0x3FF0_0000_0000_0000 }).lt(value) ==> held_importance(value).bits
            == 0x3FF0_0000_0000_0000,
{
}

/// Every request of an ingestion names the nodes it is about by their own ids, and
/// an id that no query can take is an error and nothing else is.
pub proof fn requests_name_their_nodes(run: IngestRun)
    ensures
        run.stage matches IngestStage::Recalling { engram: e, concept: c, .. } ==> (e <= i64::MAX
            && c <= i64::MAX ==> run.asked() == Ok::<IngestRequest, u64>(
            IngestRequest::Link {
                edge: ConceptEdge::Recalls,
                engram: e as i64,
                concept: c as i64,
            },
        )),
        run.stage matches IngestStage::Abstracting { engram: e, concept: c, .. } ==> (e <= i64::MAX
            && c <= i64::MAX ==> run.asked() == Ok::<IngestRequest, u64>(
            IngestRequest::Link {
                edge: ConceptEdge::AbstractsTo,
                engram: e as i64,
                concept: c as i64,
            },
        )),
        run.stage matches IngestStage::Counting { concept: c, .. } ==> if c <= i64::MAX {
            run.asked() == Ok::<IngestRequest, u64>(IngestRequest::ReadCount { concept: c as i64 })
        } else {
            run.asked() == Err::<IngestRequest, u64>(c)
        },
        run.stage matches IngestStage::Raising { concept: c, current, .. } ==> if c > i64::MAX {
            run.asked() == Err::<IngestRequest, u64>(c)
        } else {
            current < i64::MAX ==> run.asked() == Ok::<IngestRequest, u64>(
                IngestRequest::SetCount { concept: c as i64, count: (current + 1) as i64 },
            )
        },
        run.stage matches IngestStage::Scanning { concept: c, .. } ==> run.asked() == Ok::<
            IngestRequest,
            u64,
        >(IngestRequest::Scan { concept_id: c }),
        run.stage matches IngestStage::Chaining { engram: e, prev } ==> if prev > i64::MAX {
            run.asked() == Err::<IngestRequest, u64>(prev)
        } else if e > i64::MAX {
            run.asked() == Err::<IngestRequest, u64>(e)
        } else {
            run.asked() == Ok::<IngestRequest, u64>(
                IngestRequest::Chain { from: prev as i64, to: e as i64, pos: run.seq_pos },
            )
        },
        run.stage matches IngestStage::Storing { charge, importance } ==> run.asked() == Ok::<
            IngestRequest,
            u64,
        >(IngestRequest::StoreEngram { charge, importance }),
        run.stage matches IngestStage::Done { engram: e } ==> run.asked() == Ok::<
            IngestRequest,
            u64,
        >(IngestRequest::Finish { engram_id: e }),
{
}

/// A count goes up by one, and never past the largest.
pub proof fn counts_go_up_by_one(n: i64)
    ensures
        n < i64::MAX ==> one_more(n) == n + 1,
        n == i64::MAX ==> one_more(n) == n,
{
}

/// The count of a reply is that of its first concept, of its only one, or of the
/// reply itself where it binds none.
pub proof fn counts_come_with_the_first_row(reply: JsonView, rows: Seq<JsonView>)
    ensures
        field(reply, "concept"@) == Some(JsonView::Array(rows)) ==> reply_count(reply) == if rows.len()
            == 0 {
            None
        } else {
            row_count(rows[0])
        },
        field(reply, "concept"@) matches Some(JsonView::Object(entries)) ==> reply_count(reply)
            == row_count(JsonView::Object(entries)),
        field(reply, "concept"@) is None ==> reply_count(reply) == row_count(reply),
{
}

} // verus!
