use mnemos::contradiction::{
    candidate_pairs, extract_json, ContradictionDetector, ContradictionVerdict, PairMeasure,
    pair_candidate, ScanReply, ScanRequest, ScanRun, VerifyStep,
};
use mnemos::double::Double;
use mnemos::error::{MnemosError, Outcome};
use mnemos::json::read_json;

fn double(x: f64) -> Double {
    Double { bits: x.to_bits() }
}

fn cosine(a: &[f32], b: &[f32]) -> f64 {
    let mut dot = 0.0f64;
    let mut na = 0.0f64;
    let mut nb = 0.0f64;
    for (x, y) in a.iter().zip(b) {
        dot += f64::from(*x) * f64::from(*y);
        na += f64::from(*x) * f64::from(*x);
        nb += f64::from(*y) * f64::from(*y);
    }
    dot / (na.sqrt() * nb.sqrt())
}

fn candidate(charge_a: f64, a: &[f32], charge_b: f64, b: &[f32]) -> Option<f64> {
    ContradictionDetector::<()>::embedding_candidate(
        double(charge_a),
        double(charge_b),
        double((charge_a - charge_b).abs()),
        double(cosine(a, b)),
    )
    .map(|d| f64::from_bits(d.bits))
}

#[test]
fn remote_work_pair_is_candidate() {
    let a = vec![1.0f32, 0.0];
    let b = vec![0.89f32, 0.4559];
    let sim = candidate(0.7, &a, -0.65, &b);
    assert!(sim.is_some(), "expected Some, got None");
    assert!((sim.expect("some") - 0.89).abs() < 1e-3);
}

#[test]
fn coffee_pair_rejected_on_low_similarity() {
    let a = vec![1.0f32, 0.0];
    let b = vec![0.42f32, 0.9075];
    assert_eq!(candidate(0.8, &a, 0.0, &b), None);
}

#[test]
fn same_sign_is_rejected() {
    let a = vec![1.0f32, 0.0];
    let b = vec![1.0f32, 0.0];
    assert_eq!(candidate(0.7, &a, 0.4, &b), None);
}

#[test]
fn narrow_gap_is_rejected() {
    let a = vec![1.0f32, 0.0];
    let b = vec![1.0f32, 0.0];
    assert_eq!(candidate(0.3, &a, -0.2, &b), None);
}

#[test]
fn boundary_gap_is_rejected() {
    let a = vec![1.0f32, 0.0];
    let b = vec![1.0f32, 0.0];
    assert_eq!(candidate(0.3, &a, -0.3, &b), None);
}

#[test]
fn a_neutral_charge_is_its_own_side() {
    let a = vec![1.0f32, 0.0];
    assert_eq!(candidate(0.8, &a, 0.0, &a), Some(1.0));
    assert_eq!(candidate(0.0, &a, 0.8, &a), Some(1.0));
    assert_eq!(candidate(0.0, &a, 0.0, &a), None);
}

fn verdict_in(reply: &str) -> Result<ContradictionVerdict, String> {
    let part = extract_json(reply);
    let json = read_json(part)?;
    let contradicts = json.get("contradicts").and_then(|v| v.as_bool()).ok_or("no verdict")?;
    let explanation = json.get("explanation").and_then(|v| v.as_text()).ok_or("no words")?;
    Ok(ContradictionVerdict { contradicts, explanation: explanation.to_string() })
}

/// Judges over a chat model that gives the replies in order.
fn judge(replies: &[&str], a: &str, b: &str) -> Outcome<ContradictionVerdict> {
    let mut run = ContradictionDetector::new(()).verify_pair(a, b);
    for reply in replies {
        match verdict_in(reply) {
            Ok(verdict) => return Ok(verdict),
            Err(words) => match run.unparsed(&words, reply) {
                VerifyStep::Ask { run: next } => run = next,
                VerifyStep::Fail { error } => return Err(error),
            },
        }
    }
    panic!("mock LLM ran out of replies")
}

#[test]
fn verify_pair_parses_llm_json() {
    let verdict = judge(
        &[r#"{"contradicts": true, "explanation": "A praises remote work while B blames it for killing collaboration."}"#],
        "The team delivered 40% more features after going remote.",
        "Remote work has made collaboration impossible.",
    )
    .expect("verify_pair parses mock JSON");
    assert!(verdict.contradicts);
    assert!(verdict.explanation.contains("collaboration"));
}

#[test]
fn verify_pair_retries_after_prose_wrapped_reply() {
    let verdict = judge(
        &[
            "not json at all",
            r#"{"contradicts": false, "explanation": "different aspects of the topic."}"#,
        ],
        "statement one",
        "statement two",
    )
    .expect("verify_pair succeeds on retry");
    assert!(!verdict.contradicts);
}

#[test]
fn two_unreadable_verdicts_fail() {
    assert!(matches!(
        judge(&["no", "still no"], "a", "b"),
        Err(MnemosError::Llm(m))
            if m.starts_with("verify_pair: no parseable verdict after 2 attempts: ")
    ));
}

#[test]
fn prose_around_a_verdict_is_cut() {
    assert_eq!(extract_json("so: {\"a\": {}} ok"), "{\"a\": {}}");
    assert_eq!(extract_json("none"), "none");
    assert_eq!(extract_json("} {"), "} {");
}

fn pair(gap: f64, sim: f64) -> PairMeasure {
    PairMeasure { gap: double(gap), sim: double(sim) }
}

#[test]
fn pairs_come_once_and_in_order() {
    let charges = vec![double(0.7), double(-0.6), double(0.9)];
    let measures = vec![
        vec![pair(1.3, 0.9), pair(0.2, 0.95)],
        vec![pair(1.5, 0.8)],
        vec![],
    ];
    assert_eq!(candidate_pairs(&charges, &measures), vec![(0, 1), (1, 2)]);
}

#[test]
fn what_is_no_number_is_no_candidate() {
    let nan = double(f64::NAN);
    let (a, b) = (double(0.7), double(-0.6));
    assert!(pair_candidate(a, b, double(1.3), double(0.9)).is_some());
    assert!(pair_candidate(a, b, double(1.3), nan).is_none());
    assert!(pair_candidate(a, b, nan, double(0.9)).is_none());
    assert!(pair_candidate(nan, b, double(1.3), double(0.9)).is_none());
    assert!(pair_candidate(a, nan, double(1.3), double(0.9)).is_none());
    let measures = vec![vec![PairMeasure { gap: double(1.3), sim: nan }], vec![]];
    assert!(candidate_pairs(&vec![a, b], &measures).is_empty());
}

#[test]
fn a_scan_links_and_flags_what_is_confirmed() {
    let charges = vec![double(0.7), double(-0.6), double(0.9)];
    let measures = vec![
        vec![pair(1.3, 0.9), pair(0.2, 0.95)],
        vec![pair(1.5, 0.8)],
        vec![],
    ];
    let mut run = ScanRun::begin(9, vec![4, 5, 6], &charges, &measures);
    assert_eq!(run.request().unwrap(), ScanRequest::Judge { first: 0, second: 1 });
    run = run.advance(ScanReply::Judged { contradicts: false });
    assert_eq!(run.request().unwrap(), ScanRequest::Judge { first: 1, second: 2 });
    run = run.advance(ScanReply::Judged { contradicts: true });
    assert_eq!(run.request().unwrap(), ScanRequest::Link { from: 5, to: 6 });
    run = run.advance(ScanReply::Stored);
    assert_eq!(run.request().unwrap(), ScanRequest::Flag { engram: 5 });
    run = run.advance(ScanReply::Stored);
    assert_eq!(run.request().unwrap(), ScanRequest::Flag { engram: 6 });
    run = run.advance(ScanReply::Stored);
    assert_eq!(run.request().unwrap(), ScanRequest::Finish);
    assert_eq!(run.confirmed, vec![(5, 6)]);
}

#[test]
fn ids_that_do_not_fit_a_query_end_a_scan() {
    let charges = vec![double(0.7), double(-0.6)];
    let measures = vec![vec![pair(1.3, 0.9)], vec![]];
    let run = ScanRun::begin(9, vec![u64::MAX, 5], &charges, &measures);
    let run = run.advance(ScanReply::Judged { contradicts: true });
    assert!(matches!(run.request(), Err(MnemosError::Storage(_))));
}
