//! Scores from a chat model: one number per text, asked for at most twice.

use crate::double::Double;
use crate::error::{ErrorView, MnemosError};
use crate::text::{blank, is_blank, trim, trimmed};
use vstd::prelude::*;

verus! {

/// How often a score is asked for.
pub const SCORE_ATTEMPTS: usize = 2;

/// A score being asked for.
#[derive(Debug)]
pub struct ScoreRun {
    /// The question as first asked.
    pub base: String,
    /// The question to ask next.
    pub prompt: String,
    /// How many tries were made.
    pub attempt: usize,
    /// The bounds that hold the score.
    pub lo: Double,
    pub hi: Double,
    /// What to report when no try gives a number.
    pub failure: String,
}

/// What came of one try.
#[derive(Clone, Copy, Debug, PartialEq, Eq, Structural)]
pub enum ScoreEvent {
    /// The reply was this double.
    Number { value: Double },
    /// The reply was no number.
    NotANumber,
    /// There was no reply.
    Failed,
}

/// What to do after a try.
#[derive(Debug)]
pub enum ScoreStep {
    Ask { run: ScoreRun },
    Give { score: Double },
    Fail { error: MnemosError },
}

/// The number that a try gave.
pub open spec fn number_in(event: ScoreEvent) -> Option<Double> {
    match event {
        ScoreEvent::Number { value } => if value.nan() {
            None
        } else {
            Some(value)
        },
        _ => None,
    }
}

impl ScoreRun {
    /// A try is left, and the bounds are in order.
    pub open spec fn valid(&self) -> bool {
        self.attempt < SCORE_ATTEMPTS && self.lo.le(self.hi)
    }

    /// The run differs from `other` at most in its prompt and its attempt.
    pub open spec fn same_question(&self, other: ScoreRun) -> bool {
        &&& other.base@ == self.base@
        &&& other.lo == self.lo
        &&& other.hi == self.hi
        &&& other.failure@ == self.failure@
    }

    /// What a try leads to.
    pub open spec fn went_on(self, event: ScoreEvent, r: ScoreStep) -> bool {
        match number_in(event) {
            Some(value) => r == (ScoreStep::Give { score: value.bounded(self.lo, self.hi) }),
            None => if self.attempt + 1 < SCORE_ATTEMPTS {
                r matches ScoreStep::Ask { run } && run.valid() && self.same_question(run)
                    && run.attempt == self.attempt + 1 && run.prompt@ == if event is Failed {
                    self.prompt@
                } else {
                    self.base@ + "\nReply with only the number, no other words."@
                }
            } else {
                r matches ScoreStep::Fail { error } && error@ == ErrorView::Llm(self.failure@)
            },
        }
    }

    /// The first question.
    pub(crate) fn begin(base: String, lo: Double, hi: Double, failure: &str) -> (r: ScoreRun)
        requires
            lo.le(hi),
        ensures
            r.valid(),
            r.base@ == base@,
            r.prompt@ == base@,
            r.attempt == 0,
            r.lo == lo,
            r.hi == hi,
            r.failure@ == failure@,
    {
        let prompt = base.clone();
        ScoreRun { base, prompt, attempt: 0, lo, hi, failure: failure.to_owned() }
    }

    /// Decides what a try leads to: a number is held within the bounds, a reply
    /// that is none is asked for again in plainer words, and a missing reply is
    /// asked for again as before. A double that is not a number is no number.
    pub fn step(self, event: ScoreEvent) -> (r: ScoreStep)
        requires
            self.valid(),
        ensures
            self.went_on(event, r),
            r matches ScoreStep::Give { score } ==> self.lo.le(score) && score.le(self.hi),
    {
        if let ScoreEvent::Number { value } = event {
            if !value.is_nan() {
                return ScoreStep::Give { score: value.clamp(self.lo, self.hi) };
            }
        }
        if self.attempt + 1 >= SCORE_ATTEMPTS {
            return ScoreStep::Fail { error: MnemosError::Llm(self.failure) };
        }
        let prompt = match event {
            ScoreEvent::Failed => self.prompt,
            _ => self.base.clone().concat("\nReply with only the number, no other words."),
        };
        ScoreStep::Ask {
            run: ScoreRun {
                base: self.base,
                prompt,
                attempt: self.attempt + 1,
                lo: self.lo,
                hi: self.hi,
                failure: self.failure,
            },
        }
    }
}

/// The part of a reply that is read as a number.
pub fn score_text(reply: &str) -> (r: &str)
    ensures
        r@ == trimmed(reply@),
{
    trim(reply)
}

/// Whatever a reply reads as, a score that comes of it lies within the bounds of
/// its run.
pub proof fn given_score_is_bounded(run: ScoreRun, event: ScoreEvent)
    requires
        run.valid(),
    ensures
        number_in(event) matches Some(value) ==> run.lo.le(value.bounded(run.lo, run.hi))
            && value.bounded(run.lo, run.hi).le(run.hi),
{
}

/// The bits of -1.
pub const MINUS_ONE: u64 = 0xBFF0_0000_0000_0000;

/// The bits of 1.
pub const PLUS_ONE: u64 = 0x3FF0_0000_0000_0000;

/// Scores the emotional valence of a text, from -1 to 1, over a chat model.
#[derive(Debug)]
pub struct LlmEmotionalTagger<L> {
    pub llm: L,
}

/// How tagging begins.
#[derive(Debug)]
pub enum TagStart {
    /// The text is blank, and neutral without asking.
    Neutral { score: Double },
    Ask { run: ScoreRun },
}

impl<L> LlmEmotionalTagger<L> {
    /// A tagger over a chat model.
    pub fn new(llm: L) -> (r: LlmEmotionalTagger<L>)
        ensures
            r.llm == llm,
    {
        LlmEmotionalTagger { llm }
    }

    /// Begins to score `text`. A blank text is neutral and asks nothing.
    pub fn tag(&self, text: &str) -> (r: TagStart)
        ensures
            if blank(text@) {
                r == (TagStart::Neutral { score: Double { bits: 0 } })
            } else {
                r matches TagStart::Ask { run } && run.valid() && run.attempt == 0 && run.base@
                    == "Score the emotional valence of this text from -1.0 (very negative) to +1.0 (very positive). Return only the number.\n\nText: "@
                    + text@ && run.prompt@ == run.base@ && run.lo.bits == MINUS_ONE && run.hi.bits
                    == PLUS_ONE && run.failure@
                    == "emotional valence scoring failed after 2 attempts"@
            },
    {
        if is_blank(text) {
            return TagStart::Neutral { score: Double { bits: 0 } };
        }
        let base =
            "Score the emotional valence of this text from -1.0 (very negative) to +1.0 (very positive). Return only the number.\n\nText: ".to_owned().concat(
        text);
        TagStart::Ask {
            run: ScoreRun::begin(
                base,
                Double { bits: MINUS_ONE },
                Double { bits: PLUS_ONE },
                "emotional valence scoring failed after 2 attempts",
            ),
        }
    }
}

/// Scores how worth keeping a text is, from 0 to 1, over a chat model.
#[derive(Debug)]
pub struct LlmImportanceScorer<L> {
    pub llm: L,
}

impl<L> LlmImportanceScorer<L> {
    /// A scorer over a chat model.
    pub fn new(llm: L) -> (r: LlmImportanceScorer<L>)
        ensures
            r.llm == llm,
    {
        LlmImportanceScorer { llm }
    }

    /// Begins to score `text`.
    pub fn score(&self, text: &str) -> (r: ScoreRun)
        ensures
            r.valid(),
            r.attempt == 0,
            r.base@
                == "You are a memory importance scorer. Rate how important this memory is for a personal AI to retain long-term. Consider:\n- Does it contain novel information?\n- Could it inform future decisions?\n- Are the stakes high?\n- Is it specific or generic?\nReturn ONLY a float from 0.0 to 1.0.\n\nMemory: "@
                + text@,
            r.prompt@ == r.base@,
            r.lo.bits == 0,
            r.hi.bits == PLUS_ONE,
            r.failure@ == "importance scoring failed after 2 attempts"@,
    {
        let base =
            "You are a memory importance scorer. Rate how important this memory is for a personal AI to retain long-term. Consider:\n- Does it contain novel information?\n- Could it inform future decisions?\n- Are the stakes high?\n- Is it specific or generic?\nReturn ONLY a float from 0.0 to 1.0.\n\nMemory: ".to_owned().concat(
        text);
        ScoreRun::begin(
            base,
            Double { bits: 0 },
            Double { bits: PLUS_ONE },
            "importance scoring failed after 2 attempts",
        )
    }
}

/// An importance given by hand, held between 0 and 1; what is not a number
/// counts as 0.
pub fn clamp_importance(value: Double) -> (r: Double)
    ensures
        r == if value.nan() {
            Double { bits: 0 }
        } else {
            value.bounded(Double { bits: 0 }, Double { bits: PLUS_ONE })
        },
{
    if value.is_nan() {
        Double { bits: 0 }
    } else {
        value.clamp(Double { bits: 0 }, Double { bits: PLUS_ONE })
    }
}

/// A reply that is a number within the bounds is the score, on every try, and it
/// ends the asking.
pub proof fn numbers_in_bounds_are_given(run: ScoreRun, value: Double, r: ScoreStep)
    requires
        run.valid(),
        run.went_on(ScoreEvent::Number { value }, r),
        run.lo.le(value),
        value.le(run.hi),
    ensures
        r matches ScoreStep::Give { score } && score == value,
{
}

/// A number past a bound is held at that bound.
pub proof fn numbers_past_a_bound_are_held_there(run: ScoreRun, value: Double, r: ScoreStep)
    requires
        run.valid(),
        run.went_on(ScoreEvent::Number { value }, r),
    ensures
        value.lt(run.lo) ==> r == (ScoreStep::Give { score: run.lo }),
        run.hi.lt(value) ==> r == (ScoreStep::Give { score: run.hi }),
{
}

/// What is no number is never a score: the first such try is followed by one more
/// of the same question, and the second ends in the run's failure.
pub proof fn scores_are_asked_for_twice(run: ScoreRun, event: ScoreEvent, r: ScoreStep)
    requires
        run.valid(),
        run.went_on(event, r),
        event matches ScoreEvent::Number { value } ==> value.nan(),
    ensures
        run.attempt == 0 ==> (r matches ScoreStep::Ask { run: next } && next.attempt == 1
            && next.base@ == run.base@ && next.lo == run.lo && next.hi == run.hi
            && next.failure@ == run.failure@),
        run.attempt == 1 ==> (r matches ScoreStep::Fail { error } && error@ == ErrorView::Llm(
            run.failure@,
        )),
        run.attempt <= 1,
{
}

/// Only a reply that was no number changes the words of the question: it is asked
/// again with the base and a note, and after a missing reply as it was.
pub proof fn missing_replies_keep_the_question(run: ScoreRun, event: ScoreEvent, r: ScoreStep)
    requires
        run.valid(),
        run.went_on(event, r),
    ensures
        r matches ScoreStep::Ask { run: next } ==> if event is Failed {
            next.prompt@ == run.prompt@
        } else {
            next.prompt@.len() > run.base@.len() && next.prompt@.take(run.base@.len() as int)
                == run.base@
        },
{
    if let ScoreStep::Ask { run: next } = r {
        if !(event is Failed) {
            reveal_strlit("\nReply with only the number, no other words.");
            assert(next.prompt@.take(run.base@.len() as int) =~= run.base@);
        }
    }
}

} // verus!
