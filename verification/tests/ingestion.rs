use mnemos::double::Double;
use mnemos::error::MnemosError;
use mnemos::ids::{
    json_id, json_row_id, node_param, parse_node_id, response_count, response_rows,
    saturated_param, to_i64,
};
use mnemos::ingestion::{
    connect_edge, parse_concept_lookup, parse_source_count, ConceptEdge, IngestReply,
    IngestRequest, IngestRun,
};
use mnemos::json::{read_json, Json};
use mnemos::types::{EngramType, ExtractedConcept};

fn json(text: &str) -> Json {
    read_json(text).expect("valid JSON")
}

fn double(x: f64) -> Double {
    Double { bits: x.to_bits() }
}

fn node_id(text: &str) -> Result<u64, MnemosError> {
    parse_node_id(&json(text), true, text)
}

#[test]
fn parse_node_id_from_batched_response() {
    assert_eq!(node_id(r#"{"engram": [{"$id": 42, "episode_raw": "hi"}]}"#).unwrap(), 42);
}

#[test]
fn parse_node_id_direct() {
    assert_eq!(node_id(r#"{"$id": 7}"#).unwrap(), 7);
    assert_eq!(node_id(r#"{"id": 9}"#).unwrap(), 9);
    assert_eq!(node_id(r#"[{"$id": 11}]"#).unwrap(), 11);
}

#[test]
fn parse_node_id_missing_is_storage_error() {
    let err = node_id(r#"{"engram": []}"#).unwrap_err();
    assert!(matches!(err, MnemosError::Storage(_)));
}

#[test]
fn parse_concept_lookup_shapes() {
    let found = json(r#"{"concept": [{"$id": 5, "name": "sky", "source_count": 3}]}"#);
    assert_eq!(parse_concept_lookup(&found), Some((5, Some(3))));

    let no_count = json(r#"{"concept": [{"$id": 6, "name": "sky"}]}"#);
    assert_eq!(parse_concept_lookup(&no_count), Some((6, None)));

    let single = json(r#"{"concept": {"$id": 7, "source_count": 1}}"#);
    assert_eq!(parse_concept_lookup(&single), Some((7, Some(1))));

    assert_eq!(parse_concept_lookup(&json(r#"{"concept": []}"#)), None);
    assert_eq!(parse_concept_lookup(&json(r#"{"concept": null}"#)), None);
    assert_eq!(parse_concept_lookup(&json("{}")), None);
    assert_eq!(parse_concept_lookup(&json(r#"{"concept": [{}]}"#)), None);
}

#[test]
fn parse_source_count_shapes() {
    assert_eq!(parse_source_count(&json(r#"{"concept": [{"source_count": 4}]}"#)), Some(4));
    assert_eq!(parse_source_count(&json(r#"{"concept": {"source_count": 2}}"#)), Some(2));
    assert_eq!(parse_source_count(&json(r#"{"concept": [{}]}"#)), None);
    assert_eq!(parse_source_count(&json(r#"{"concept": []}"#)), None);
    assert_eq!(parse_source_count(&json("{}")), None);
}

#[test]
fn connect_edge_rejects_unknown_label_without_io() {
    assert!(matches!(connect_edge("Bogus"), Err(MnemosError::Internal(_))));
    assert_eq!(connect_edge("Recalls").unwrap(), ConceptEdge::Recalls);
    assert_eq!(connect_edge("AbstractsTo").unwrap(), ConceptEdge::AbstractsTo);
}

#[test]
fn ingest_with_importance_skips_scorer_when_overridden() {
    let mut run = IngestRun::begin(EngramType::Episodic, Some(double(0.9)), None, None);
    assert_eq!(run.request().unwrap(), IngestRequest::Tag);
    run = run.advance(IngestReply::Scored { value: double(0.25) }).unwrap();
    assert_eq!(run.request().unwrap(), IngestRequest::Embed);
    run = run.advance(IngestReply::Done).unwrap();
    assert_eq!(
        run.request().unwrap(),
        IngestRequest::StoreEngram { charge: double(0.25), importance: double(0.9) }
    );
    let err = run
        .advance(IngestReply::Row { row: Json::Null, shown: "null".to_string() })
        .unwrap_err();
    assert!(matches!(err, MnemosError::Storage(_)));
}

#[test]
fn ingest_without_override_consults_scorer() {
    let mut run = IngestRun::begin(EngramType::Episodic, None, None, None);
    let mut calls = 0;
    run = run.advance(IngestReply::Scored { value: double(0.25) }).unwrap();
    if run.request().unwrap() == IngestRequest::Score {
        calls += 1;
        run = run.advance(IngestReply::Scored { value: double(0.8) }).unwrap();
    }
    assert_eq!(calls, 1);
    assert_eq!(run.request().unwrap(), IngestRequest::Embed);
}

fn row(text: &str) -> IngestReply {
    IngestReply::Row { row: json(text), shown: text.to_string() }
}

#[test]
fn a_known_concept_is_linked_and_counted() {
    let mut run = IngestRun::begin(EngramType::Episodic, Some(double(0.5)), Some(3), Some(2));
    run = run.advance(IngestReply::Scored { value: double(0.0) }).unwrap();
    run = run.advance(IngestReply::Done).unwrap();
    run = run.advance(row(r#"{"engram": [{"$id": 42}]}"#)).unwrap();
    assert_eq!(run.request().unwrap(), IngestRequest::Extract);
    run = run
        .advance(IngestReply::Extracted {
            concepts: vec![ExtractedConcept { name: "sky".to_string(), confidence: double(0.9) }],
        })
        .unwrap();
    assert_eq!(run.request().unwrap(), IngestRequest::LookUp { k: 0 });
    run = run.advance(row(r#"{"concept": [{"$id": 5, "source_count": 3}]}"#)).unwrap();
    assert_eq!(
        run.request().unwrap(),
        IngestRequest::Link { edge: ConceptEdge::Recalls, engram: 42, concept: 5 }
    );
    run = run.advance(IngestReply::Done).unwrap();
    assert_eq!(
        run.request().unwrap(),
        IngestRequest::Link { edge: ConceptEdge::AbstractsTo, engram: 42, concept: 5 }
    );
    run = run.advance(IngestReply::Done).unwrap();
    assert_eq!(run.request().unwrap(), IngestRequest::SetCount { concept: 5, count: 4 });
    run = run.advance(IngestReply::Done).unwrap();
    assert_eq!(run.request().unwrap(), IngestRequest::Scan { concept_id: 5 });
    run = run.advance(IngestReply::Done).unwrap();
    assert_eq!(run.request().unwrap(), IngestRequest::Chain { from: 3, to: 42, pos: Some(2) });
    run = run.advance(IngestReply::Done).unwrap();
    assert_eq!(run.request().unwrap(), IngestRequest::Finish { engram_id: 42 });
}

#[test]
fn a_new_concept_is_created_and_its_count_read() {
    let mut run = IngestRun::begin(EngramType::Semantic, Some(double(0.5)), None, None);
    run = run.advance(IngestReply::Scored { value: double(0.0) }).unwrap();
    run = run.advance(IngestReply::Done).unwrap();
    run = run.advance(row(r#"{"engram": [{"$id": 42}]}"#)).unwrap();
    run = run
        .advance(IngestReply::Extracted {
            concepts: vec![ExtractedConcept { name: "sky".to_string(), confidence: double(0.9) }],
        })
        .unwrap();
    run = run.advance(row(r#"{"concept": []}"#)).unwrap();
    assert_eq!(run.request().unwrap(), IngestRequest::CreateConcept { k: 0 });
    run = run.advance(row(r#"{"concept": [{"$id": 8}]}"#)).unwrap();
    assert_eq!(
        run.request().unwrap(),
        IngestRequest::Link { edge: ConceptEdge::Recalls, engram: 42, concept: 8 }
    );
}

#[test]
fn ids_fit_queries_or_fail() {
    assert_eq!(node_param(7).unwrap(), 7);
    assert!(matches!(
        node_param(u64::MAX),
        Err(MnemosError::Storage(m)) if m == "node id out of range: 18446744073709551615"
    ));
    assert!(to_i64(u64::MAX).is_err());
    assert_eq!(saturated_param(u64::MAX), i64::MAX);
    assert_eq!(saturated_param(12), 12);
}

#[test]
fn rows_and_counts_of_replies() {
    assert_eq!(response_rows(&json(r#"{"rows": [1, 2]}"#), "rows").len(), 2);
    assert_eq!(response_rows(&json(r#"{"rows": {"a": 1}}"#), "rows").len(), 1);
    assert_eq!(response_rows(&json(r#"{"rows": 7}"#), "rows").len(), 0);
    assert_eq!(response_count(&json(r#"{"n": [1, 2]}"#), "n"), 2);
    assert_eq!(response_count(&json(r#"{"n": {}}"#), "n"), 1);
    assert_eq!(response_count(&json(r#"{"n": 3}"#), "n"), 0);
    assert_eq!(json_id(&json("12")), Some(12));
    assert_eq!(json_row_id(&json(r#"{"$id": 4}"#)), Some(4));
}
