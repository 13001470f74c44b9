//! Concepts of a memory, over a chat model.

use crate::double::Double;
use crate::error::{ErrorView, MnemosError, Outcome};
use crate::llm::is_slice;
use crate::scoring::PLUS_ONE;
use crate::text::{blank, find_span, is_blank, is_span};
use crate::types::ExtractedConcept;
use vstd::prelude::*;

verus! {

/// How many concepts are kept of one memory.
pub const MAX_CONCEPTS_PER_MEMORY: usize = 10;

/// How often the concepts are asked for.
pub const EXTRACT_ATTEMPTS: usize = 3;

/// A concept as name and confidence.
pub open spec fn concept_view(c: ExtractedConcept) -> (Seq<char>, Double) {
    (c.name@, c.confidence)
}

/// A concept with its confidence held between 0 and 1.
pub open spec fn settled(c: ExtractedConcept) -> (Seq<char>, Double) {
    (c.name@, c.confidence.bounded(Double { bits: 0 }, Double { bits: PLUS_ONE }))
}

/// The concepts that are kept of a list: those with a name, in order, at most
/// [`MAX_CONCEPTS_PER_MEMORY`], with their confidence held between 0 and 1.
pub open spec fn kept_concepts(concepts: Seq<ExtractedConcept>) -> Seq<(Seq<char>, Double)>
    decreases concepts.len(),
{
    if concepts.len() == 0 {
        Seq::empty()
    } else {
        let before = kept_concepts(concepts.drop_last());
        if before.len() < MAX_CONCEPTS_PER_MEMORY && !blank(concepts.last().name@) {
            before.push(settled(concepts.last()))
        } else {
            before
        }
    }
}

/// The views of concepts.
pub open spec fn concept_views(concepts: Seq<ExtractedConcept>) -> Seq<(Seq<char>, Double)> {
    concepts.map_values(|c: ExtractedConcept| concept_view(c))
}

/// Drops concepts without a name, holds confidences between 0 and 1, and caps
/// the list.
pub fn normalize(concepts: &Vec<ExtractedConcept>) -> (r: Vec<ExtractedConcept>)
    ensures
        concept_views(r@) == kept_concepts(concepts@),
        r@.len() <= MAX_CONCEPTS_PER_MEMORY,
{
    let mut out: Vec<ExtractedConcept> = Vec::new();
    let mut i: usize = 0;
    assert(concept_views(out@) =~= kept_concepts(concepts@.take(0)));
    while i < concepts.len()
        invariant
            i <= concepts@.len(),
            concept_views(out@) == kept_concepts(concepts@.take(i as int)),
            out@.len() <= MAX_CONCEPTS_PER_MEMORY,
        decreases concepts@.len() - i,
    {
        let c = &concepts[i];
        let ghost before = out@;
        proof {
            assert(concepts@.take(i + 1).drop_last() =~= concepts@.take(i as int));
            assert(concept_views(before).len() == before.len());
        }
        if out.len() < MAX_CONCEPTS_PER_MEMORY && !is_blank(c.name.as_str()) {
            let kept = ExtractedConcept {
                name: c.name.clone(),
                confidence: c.confidence.clamp(Double { bits: 0 }, Double { bits: PLUS_ONE }),
            };
            out.push(kept);
            assert(concept_views(out@) =~= concept_views(before).push(settled(*c)));
        }
        i += 1;
    }
    assert(concepts@.take(i as int) =~= concepts@);
    out
}

/// The reply holds a list: a `[` with a `]` after it.
pub open spec fn holds_list(raw: Seq<char>) -> bool {
    exists|from: int, to: int| #[trigger] is_span(raw, '[', ']', from, to) && from < to
}

/// The list in a reply that may hold prose around it.
pub fn concept_list(raw: &str) -> (r: Outcome<&str>)
    ensures
        match r {
            Ok(part) => holds_list(raw@) && is_slice(raw@, '[', ']', part@),
            Err(e) => !holds_list(raw@) && e@ == ErrorView::Llm(
                "no JSON array in LLM response: "@ + raw@,
            ),
        },
{
    match find_span(raw, '[', ']') {
        Some((from, to)) => {
            assert(is_span(raw@, '[', ']', from as int, to as int));
            if from < to {
                return Ok(raw.substring_char(from, to + 1));
            }
            assert forall|a: int, b: int| #[trigger] is_span(raw@, '[', ']', a, b) implies a >= b by {
                assert(a == from && b == to);
            }
        },
        None => {},
    }
    Err(MnemosError::Llm("no JSON array in LLM response: ".to_owned().concat(raw)))
}

/// The failure of reading the list of a reply, in the parser's words.
pub fn list_error(words: &str) -> (r: MnemosError)
    ensures
        r@ == ErrorView::Llm("failed to parse concepts JSON: "@ + words@),
{
    MnemosError::Llm("failed to parse concepts JSON: ".to_owned().concat(words))
}

/// Extracts concepts over a chat model.
#[derive(Debug)]
pub struct LlmConceptExtractor<L> {
    pub llm: L,
}

/// Concepts being asked for.
#[derive(Debug)]
pub struct ExtractRun {
    pub base: String,
    pub prompt: String,
    pub attempt: usize,
}

/// What came of one try.
#[derive(Debug)]
pub enum ExtractEvent {
    /// The reply held these concepts.
    Parsed { concepts: Vec<ExtractedConcept> },
    /// The reply held no list that could be read.
    Unparsed { reply: String },
    /// There was no reply.
    Failed,
}

/// What to do after a try.
#[derive(Debug)]
pub enum ExtractStep {
    Ask { run: ExtractRun },
    Give { concepts: Vec<ExtractedConcept> },
    Fail { error: MnemosError },
}

impl<L> LlmConceptExtractor<L> {
    /// An extractor over a chat model.
    pub fn new(llm: L) -> (r: LlmConceptExtractor<L>)
        ensures
            r.llm == llm,
    {
        LlmConceptExtractor { llm }
    }

    /// Begins to extract the concepts of `text`.
    pub fn extract(&self, text: &str) -> (r: ExtractRun)
        ensures
            r.valid(),
            r.attempt == 0,
            r.prompt@ == r.base@,
            r.base@
                == "Extract key concepts, entities, and topics from this memory. Return a JSON array of objects with 'name' and 'confidence' fields.\n\nRules:\n- Each concept should be a specific noun phrase (2-6 words)\n- Avoid overly generic terms ('stuff', 'things')\n- Include technical terms, proper nouns, and domain concepts\n- Confidence should reflect how clearly the concept is stated\n\nMemory: "@
                + text@,
    {
        let base =
            "Extract key concepts, entities, and topics from this memory. Return a JSON array of objects with 'name' and 'confidence' fields.\n\nRules:\n- Each concept should be a specific noun phrase (2-6 words)\n- Avoid overly generic terms ('stuff', 'things')\n- Include technical terms, proper nouns, and domain concepts\n- Confidence should reflect how clearly the concept is stated\n\nMemory: ".to_owned().concat(
        text);
        let prompt = base.clone();
        ExtractRun { base, prompt, attempt: 0 }
    }
}

impl ExtractRun {
    pub open spec fn valid(&self) -> bool {
        self.attempt < EXTRACT_ATTEMPTS
    }

    /// The next try asks `prompt`, or there is none left.
    pub open spec fn asks_again(&self, prompt: Seq<char>, r: ExtractStep) -> bool {
        if self.attempt + 1 < EXTRACT_ATTEMPTS {
            r matches ExtractStep::Ask { run } && run.valid() && run.base@ == self.base@
                && run.attempt == self.attempt + 1 && run.prompt@ == prompt
        } else {
            r matches ExtractStep::Fail { error } && error@ == ErrorView::Llm(
                "concept extraction failed after 3 attempts"@,
            )
        }
    }

    /// What a try leads to.
    pub open spec fn went_on(self, event: ExtractEvent, r: ExtractStep) -> bool {
        match event {
            ExtractEvent::Parsed { concepts } => r matches ExtractStep::Give { concepts: kept }
                && concept_views(kept@) == kept_concepts(concepts@),
            ExtractEvent::Unparsed { reply } => self.asks_again(
                self.base@
                    + "\n\nYour previous response was not a valid JSON array. Return ONLY the JSON array, no other text.\nPrevious response:\n"@
                    + reply@,
                r,
            ),
            ExtractEvent::Failed => self.asks_again(self.prompt@, r),
        }
    }

    /// Decides what a try leads to.
    pub fn step(self, event: ExtractEvent) -> (r: ExtractStep)
        requires
            self.valid(),
        ensures
            self.went_on(event, r),
    {
        let prompt = match event {
            ExtractEvent::Parsed { concepts } => {
                return ExtractStep::Give { concepts: normalize(&concepts) };
            },
            ExtractEvent::Unparsed { reply } => self.base.clone().concat(
                "\n\nYour previous response was not a valid JSON array. Return ONLY the JSON array, no other text.\nPrevious response:\n",
            ).concat(reply.as_str()),
            ExtractEvent::Failed => self.prompt.clone(),
        };
        if self.attempt + 1 < EXTRACT_ATTEMPTS {
            ExtractStep::Ask { run: ExtractRun { base: self.base, prompt, attempt: self.attempt + 1 } }
        } else {
            ExtractStep::Fail {
                error: MnemosError::Llm("concept extraction failed after 3 attempts".to_owned()),
            }
        }
    }
}

proof fn lemma_kept_by_filter(concepts: Seq<ExtractedConcept>)
    ensures
        ({
            let named = concepts.filter(|c: ExtractedConcept| !blank(c.name@));
            let n = if named.len() <= 10 {
                named.len() as int
            } else {
                10
            };
            &&& kept_concepts(concepts).len() == n
            &&& forall|i: int|
                0 <= i < n ==> #[trigger] kept_concepts(concepts)[i] == settled(named[i])
        }),
    decreases concepts.len(),
{
    reveal(Seq::filter);
    if concepts.len() > 0 {
        lemma_kept_by_filter(concepts.drop_last());
    }
}

/// What is kept of a list are its concepts with a name, in order, the first ten
/// of them, each under its own name.
pub proof fn named_concepts_are_kept_in_order(concepts: Seq<ExtractedConcept>)
    ensures
        ({
            let named = concepts.filter(|c: ExtractedConcept| !blank(c.name@));
            let n = if named.len() <= 10 {
                named.len() as int
            } else {
                10
            };
            &&& kept_concepts(concepts).len() == n
            &&& forall|i: int|
                0 <= i < n ==> (#[trigger] kept_concepts(concepts)[i]).0 == named[i].name@
        }),
{
    lemma_kept_by_filter(concepts);
}

/// A confidence from 0 to 1 is kept as it is; one below is 0 and one above is 1.
pub proof fn kept_confidences_are_their_own(concepts: Seq<ExtractedConcept>, i: int)
    requires
        0 <= i < kept_concepts(concepts).len(),
    ensures
        ({
            let own = concepts.filter(|c: ExtractedConcept| !blank(c.name@))[i].confidence;
            let kept = kept_concepts(concepts)[i].1;
            let zero = Double { bits: 0 };
            let one = Double { bits: 0x3FF0_0000_0000_0000 };
            &&& zero.le(own) && own.le(one) ==> kept == own
            &&& own.lt(zero) ==> kept == zero
            &&& one.lt(own) ==> kept == one
        }),
{
    lemma_kept_by_filter(concepts);
}

/// A list that could be read ends the asking on any try, and what is given are its
/// named concepts.
pub proof fn readable_lists_are_given(
    run: ExtractRun,
    concepts: Vec<ExtractedConcept>,
    r: ExtractStep,
)
    requires
        run.valid(),
        run.went_on(ExtractEvent::Parsed { concepts }, r),
    ensures
        r is Give,
        concepts@.all(|c: ExtractedConcept| !blank(c.name@)) && concepts@.len() <= 10 ==> {
            &&& r->concepts@.len() == concepts@.len()
            &&& forall|i: int|
                0 <= i < concepts@.len() ==> (#[trigger] r->concepts@[i]).name@
                    == concepts@[i].name@
        },
{
    let kept = r->concepts@;
    assert(concept_views(kept).len() == kept.len());
    if concepts@.all(|c: ExtractedConcept| !blank(c.name@)) && concepts@.len() <= 10 {
        lemma_kept_by_filter(concepts@);
        lemma_all_named(concepts@);
        assert forall|i: int| 0 <= i < concepts@.len() implies (#[trigger] kept[i]).name@
            == concepts@[i].name@ by {
            assert(concept_views(kept)[i] == concept_view(kept[i]));
        }
    }
}

proof fn lemma_all_named(concepts: Seq<ExtractedConcept>)
    requires
        concepts.all(|c: ExtractedConcept| !blank(c.name@)),
    ensures
        concepts.filter(|c: ExtractedConcept| !blank(c.name@)) == concepts,
    decreases concepts.len(),
{
    reveal(Seq::filter);
    if concepts.len() > 0 {
        lemma_all_named(concepts.drop_last());
        assert(concepts.drop_last().push(concepts.last()) =~= concepts);
    }
}

/// Concepts are asked for three times at most: a try that gave no list is followed
/// by another of the same base while fewer than three were made, and the third is
/// the failure.
pub proof fn concepts_are_asked_for_three_times(
    run: ExtractRun,
    event: ExtractEvent,
    r: ExtractStep,
)
    requires
        run.valid(),
        run.went_on(event, r),
        !(event is Parsed),
    ensures
        run.attempt <= 2,
        run.attempt < 2 ==> (r matches ExtractStep::Ask { run: next } && next.attempt
            == run.attempt + 1 && next.base@ == run.base@),
        run.attempt == 2 ==> r is Fail,
{
}

} // verus!
