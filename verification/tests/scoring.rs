use mnemos::double::Double;
use mnemos::error::{MnemosError, Outcome};
use mnemos::scoring::{
    clamp_importance, score_text, LlmEmotionalTagger, LlmImportanceScorer, ScoreEvent, ScoreRun,
    ScoreStep, TagStart,
};

fn double(x: f64) -> Double {
    Double { bits: x.to_bits() }
}

fn value(d: Double) -> f64 {
    f64::from_bits(d.bits)
}

/// Asks a chat model that always gives the same reply.
fn ask(first: ScoreRun, reply: &str) -> Outcome<f64> {
    let mut run = first;
    loop {
        let event = match score_text(reply).parse::<f64>() {
            Ok(x) => ScoreEvent::Number { value: double(x) },
            Err(_) => ScoreEvent::NotANumber,
        };
        match run.step(event) {
            ScoreStep::Ask { run: next } => run = next,
            ScoreStep::Give { score } => return Ok(value(score)),
            ScoreStep::Fail { error } => return Err(error),
        }
    }
}

fn tag(reply: &str, text: &str) -> Outcome<f64> {
    match LlmEmotionalTagger::new(()).tag(text) {
        TagStart::Neutral { score } => Ok(value(score)),
        TagStart::Ask { run } => ask(run, reply),
    }
}

fn score(reply: &str, text: &str) -> Outcome<f64> {
    ask(LlmImportanceScorer::new(()).score(text), reply)
}

#[test]
fn parses_plain_score() {
    assert_eq!(tag("0.7", "I am happy").unwrap(), 0.7);
}

#[test]
fn clamps_out_of_range_score() {
    assert_eq!(tag("2.5", "overjoyed").unwrap(), 1.0);
}

#[test]
fn rejects_unparsable_score() {
    assert!(tag("garbage", "meh").is_err());
}

#[test]
fn empty_text_is_neutral_without_llm() {
    assert_eq!(tag("0.7", "").unwrap(), 0.0);
    assert_eq!(tag("0.7", "   ").unwrap(), 0.0);
}

#[test]
fn parses_valid_score() {
    assert_eq!(score("0.8", "a fond memory").unwrap(), 0.8);
}

#[test]
fn clamps_high_score_to_one() {
    assert_eq!(score("9.9", "a fond memory").unwrap(), 1.0);
}

#[test]
fn clamps_low_score_to_zero() {
    assert_eq!(score("-3", "a fond memory").unwrap(), 0.0);
}

#[test]
fn unparsable_reply_returns_llm_error() {
    assert!(matches!(score("nope", "a fond memory"), Err(MnemosError::Llm(_))));
}

#[test]
fn clamp_importance_bounds_override() {
    assert_eq!(value(clamp_importance(double(0.9))), 0.9);
    assert_eq!(value(clamp_importance(double(0.0))), 0.0);
    assert_eq!(value(clamp_importance(double(1.0))), 1.0);
    assert_eq!(value(clamp_importance(double(-0.5))), 0.0);
    assert_eq!(value(clamp_importance(double(1.7))), 1.0);
    assert_eq!(value(clamp_importance(double(f64::NAN))), 0.0);
    assert_eq!(value(clamp_importance(double(f64::INFINITY))), 1.0);
    assert_eq!(value(clamp_importance(double(f64::NEG_INFINITY))), 0.0);
}

#[test]
fn a_second_try_asks_for_the_number_alone() {
    let run = LlmImportanceScorer::new(()).score("x");
    let base = run.base.clone();
    let run = match run.step(ScoreEvent::NotANumber) {
        ScoreStep::Ask { run } => run,
        other => panic!("{other:?}"),
    };
    assert_eq!(run.prompt, format!("{base}\nReply with only the number, no other words."));
    assert!(matches!(
        run.step(ScoreEvent::Failed),
        ScoreStep::Fail { error: MnemosError::Llm(m) }
            if m == "importance scoring failed after 2 attempts"
    ));
    assert!(matches!(
        tag("words", "x"),
        Err(MnemosError::Llm(m)) if m == "emotional valence scoring failed after 2 attempts"
    ));
}

#[test]
fn replies_are_trimmed() {
    assert_eq!(score_text(" 0.5\u{3000}\n"), "0.5");
}

#[test]
fn a_reply_of_nan_is_no_number() {
    assert!(matches!(
        tag("NaN", "x"),
        Err(MnemosError::Llm(m)) if m == "emotional valence scoring failed after 2 attempts"
    ));
    assert!(matches!(score("nan", "x"), Err(MnemosError::Llm(_))));
    assert_eq!(tag("inf", "x").unwrap(), 1.0);
    let run = LlmImportanceScorer::new(()).score("x");
    let base = run.base.clone();
    assert!(matches!(
        run.step(ScoreEvent::Number { value: double(f64::NAN) }),
        ScoreStep::Ask { run } if run.prompt
            == format!("{base}\nReply with only the number, no other words.")
    ));
}
