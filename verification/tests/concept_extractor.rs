use mnemos::concept_extractor::{
    concept_list, list_error, normalize, ExtractEvent, ExtractStep, LlmConceptExtractor,
    MAX_CONCEPTS_PER_MEMORY,
};
use mnemos::double::Double;
use mnemos::error::{MnemosError, Outcome};
use mnemos::json::{read_json, Json, JsonNumber};
use mnemos::types::ExtractedConcept;

fn double(x: f64) -> Double {
    Double { bits: x.to_bits() }
}

fn value(d: Double) -> f64 {
    f64::from_bits(d.bits)
}

fn confidence(j: &Json) -> Double {
    match j.as_number() {
        Some(JsonNumber::Float(d)) => d,
        Some(JsonNumber::Unsigned(n)) => double(n as f64),
        Some(JsonNumber::Signed(n)) => double(n as f64),
        None => panic!("a number"),
    }
}

fn concepts_of(reply: &str) -> Option<Vec<ExtractedConcept>> {
    let list = concept_list(reply).ok()?;
    let rows = read_json(list).ok()?;
    let mut out = Vec::new();
    for row in rows.as_array()? {
        out.push(ExtractedConcept {
            name: row.get("name")?.as_text()?.to_string(),
            confidence: confidence(row.get("confidence")?),
        });
    }
    Some(out)
}

/// Extracts over a chat model that always gives the same reply.
fn extract_with(reply: &str) -> Outcome<Vec<ExtractedConcept>> {
    let extractor = LlmConceptExtractor::new(());
    let mut run = extractor.extract("some memory");
    loop {
        let event = match concepts_of(reply) {
            Some(concepts) => ExtractEvent::Parsed { concepts },
            None => ExtractEvent::Unparsed { reply: reply.to_string() },
        };
        match run.step(event) {
            ExtractStep::Ask { run: next } => run = next,
            ExtractStep::Give { concepts } => return Ok(concepts),
            ExtractStep::Fail { error } => return Err(error),
        }
    }
}

#[test]
fn pure_json_array_parses() {
    let concepts = extract_with(
        r#"[{"name":"rust","confidence":0.9},{"name":"memory","confidence":0.7}]"#,
    )
    .unwrap();
    assert_eq!(concepts.len(), 2);
    assert_eq!(concepts[0].name, "rust");
    assert!((value(concepts[0].confidence) - 0.9).abs() < 1e-9);
    assert_eq!(concepts[1].name, "memory");
    assert!((value(concepts[1].confidence) - 0.7).abs() < 1e-9);
}

#[test]
fn prose_wrapped_json_parses() {
    let concepts = extract_with(
        r#"Here are the concepts: [{"name":"rust","confidence":0.8}] hope this helps!"#,
    )
    .unwrap();
    assert_eq!(concepts.len(), 1);
    assert_eq!(concepts[0].name, "rust");
}

#[test]
fn non_json_returns_err() {
    assert!(extract_with("not json").is_err());
}

#[test]
fn confidence_clamped_to_one() {
    let concepts = extract_with(r#"[{"name":"rust","confidence":5.0}]"#).unwrap();
    assert_eq!(concepts.len(), 1);
    assert!((value(concepts[0].confidence) - 1.0).abs() < 1e-9);
}

#[test]
fn object_wrapped_array_parses() {
    let concepts = extract_with(
        r#"{"concepts": [{"name":"Uganda ICT Hub","confidence":0.95}]}"#,
    )
    .unwrap();
    assert_eq!(concepts.len(), 1);
    assert_eq!(concepts[0].name, "Uganda ICT Hub");
}

#[test]
fn long_lists_are_capped() {
    let items: Vec<String> = (0..25)
        .map(|i| format!(r#"{{"name":"concept {i}","confidence":0.5}}"#))
        .collect();
    let concepts = extract_with(&format!("[{}]", items.join(","))).unwrap();
    assert_eq!(concepts.len(), MAX_CONCEPTS_PER_MEMORY);
}

#[test]
fn nameless_concepts_do_not_count_towards_the_cap() {
    let mut list = Vec::new();
    for i in 0..12 {
        list.push(ExtractedConcept { name: " ".to_string(), confidence: double(0.5) });
        list.push(ExtractedConcept { name: format!("c{i}"), confidence: double(-2.0) });
    }
    let kept = normalize(&list);
    assert_eq!(kept.len(), 10);
    assert_eq!(kept[9].name, "c9");
    assert_eq!(value(kept[9].confidence), 0.0);
}

#[test]
fn replies_without_a_list_are_refused() {
    assert!(matches!(
        concept_list("] backwards ["),
        Err(MnemosError::Llm(m)) if m == "no JSON array in LLM response: ] backwards ["
    ));
    assert!(matches!(
        list_error("eof"),
        MnemosError::Llm(m) if m == "failed to parse concepts JSON: eof"
    ));
}

#[test]
fn tries_are_told_what_went_wrong() {
    let run = LlmConceptExtractor::new(()).extract("m");
    let base = run.base.clone();
    assert!(base.ends_with("\n\nMemory: m"));
    let run = match run.step(ExtractEvent::Unparsed { reply: "hm".to_string() }) {
        ExtractStep::Ask { run } => run,
        other => panic!("{other:?}"),
    };
    assert!(run.prompt.ends_with("Previous response:\nhm"));
    let prompt = run.prompt.clone();
    let run = match run.step(ExtractEvent::Failed) {
        ExtractStep::Ask { run } => run,
        other => panic!("{other:?}"),
    };
    assert_eq!(run.prompt, prompt);
    assert!(matches!(
        run.step(ExtractEvent::Failed),
        ExtractStep::Fail { error: MnemosError::Llm(m) }
            if m == "concept extraction failed after 3 attempts"
    ));
}
