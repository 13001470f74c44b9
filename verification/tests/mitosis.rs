use mnemos::double::Double;
use mnemos::json::{read_json, JsonNumber};
use mnemos::mitosis::{
    extract_json, EdgeMove, MitosisSplitter, NamingEvent, NamingStep, SplitReply, SplitRequest,
    SplitRun, SplitStart,
};

fn double(x: f64) -> Double {
    Double { bits: x.to_bits() }
}

fn named(reply: &str) -> Option<(String, Double)> {
    let json = read_json(extract_json(reply)?).ok()?;
    let name = json.get("name")?.as_text()?.to_string();
    match json.get("confidence")?.as_number()? {
        JsonNumber::Float(d) => Some((name, d)),
        JsonNumber::Unsigned(n) => Some((name, double(n as f64))),
        JsonNumber::Signed(n) => Some((name, double(n as f64))),
    }
}

/// Names a cluster over a chat model that always gives the same reply.
fn name_cluster(reply: &str, parent: &str, snippets: &[&str], index: usize) -> String {
    let texts: Vec<String> = snippets.iter().map(|s| s.to_string()).collect();
    let mut run = MitosisSplitter::new(()).name_cluster(parent, &texts, index);
    loop {
        match run.step(NamingEvent::Reply { raw: reply.to_string(), named: named(reply) }) {
            NamingStep::Ask { run: next } => run = next,
            NamingStep::Chosen { name } => return name,
        }
    }
}

#[test]
fn naming_fallback_on_garbage_llm() {
    let name = name_cluster("not json at all", "databases", &["postgres"], 1);
    assert_eq!(name, "databases #1", "garbage LLM → fallback name");
}

#[test]
fn naming_fallback_on_low_confidence() {
    let name =
        name_cluster(r#"{"name":"some name","confidence":0.1}"#, "databases", &["postgres"], 2);
    assert_eq!(name, "databases #2", "low confidence → fallback name");
}

#[test]
fn naming_accepts_valid_high_confidence() {
    let name = name_cluster(
        r#"{"name":"PostgreSQL internals","confidence":0.9}"#,
        "databases",
        &["postgres WAL"],
        1,
    );
    assert_eq!(name, "PostgreSQL internals");
}

#[test]
fn naming_gives_up_when_nothing_answers() {
    let texts = vec!["a".to_string(), "b".to_string()];
    let run = MitosisSplitter::new(()).name_cluster("p", &texts, 3);
    assert!(run.prompt.starts_with("Given these 2 memory snippets about 'p'"));
    let run = match run.step(NamingEvent::Failed) {
        NamingStep::Ask { run } => run,
        other => panic!("{other:?}"),
    };
    assert!(run.current.contains("Previous attempt failed."));
    let run = match run.step(NamingEvent::Failed) {
        NamingStep::Ask { run } => run,
        other => panic!("{other:?}"),
    };
    assert!(matches!(
        run.step(NamingEvent::Failed),
        NamingStep::Chosen { name } if name == "p #3"
    ));
}

#[test]
fn undivided_concepts_are_left_alone() {
    let start = SplitRun::begin(7, 7, vec![1, 2, 3], &vec![0, 0, -1], 5);
    match start {
        SplitStart::Nothing { report } => {
            assert_eq!(report.concept_id, 7);
            assert_eq!(report.children_created, 0);
            assert_eq!(report.reassigned, 0);
            assert_eq!(report.noise_kept, 1);
        }
        other => panic!("{other:?}"),
    }
    assert!(matches!(
        SplitRun::begin(7, 7, vec![1], &vec![0], 5),
        SplitStart::Nothing { .. }
    ));
}

#[test]
fn a_split_moves_every_clustered_engram() {
    let ids = vec![10, 11, 12, 13, 14, 15];
    let labels = vec![0, 1, 1, 0, 1, -1];
    let mut run = match SplitRun::begin(7, 7, ids, &labels, 5) {
        SplitStart::Running { run } => run,
        other => panic!("{other:?}"),
    };
    let mut moved = Vec::new();
    let mut created = Vec::new();
    let mut next_child = 100;
    let report = loop {
        let reply = match run.request().expect("small ids") {
            SplitRequest::NameCluster { index } => SplitReply::Named { name: format!("c{index}") },
            SplitRequest::CreateChild { source_count } => {
                created.push((run.child_name().unwrap_or("").to_string(), source_count));
                next_child += 1;
                SplitReply::Created { child: next_child }
            }
            SplitRequest::LinkSpawned { parent, child } => {
                assert_eq!(parent, 7);
                assert_eq!(child, next_child as i64);
                SplitReply::Stored
            }
            SplitRequest::MoveEdge { edge, engram, concept } => {
                match edge {
                    EdgeMove::DropRecalls | EdgeMove::DropAbstractsTo => assert_eq!(concept, 7),
                    EdgeMove::AddRecalls | EdgeMove::AddAbstractsTo => {
                        assert_eq!(concept, next_child as i64)
                    }
                }
                if edge == EdgeMove::AddRecalls {
                    moved.push(engram);
                }
                SplitReply::Stored
            }
            SplitRequest::SetSourceCount { concept, count } => {
                assert_eq!(concept, 7);
                assert_eq!(count, 1);
                SplitReply::Stored
            }
            SplitRequest::Finish { report } => break report,
        };
        run = run.advance(reply);
    };
    // The larger cluster comes first.
    assert_eq!(created, vec![("c1".to_string(), 3), ("c2".to_string(), 2)]);
    assert_eq!(moved, vec![11, 12, 14, 10, 13]);
    assert_eq!(report.children_created, 2);
    assert_eq!(report.reassigned, 5);
    assert_eq!(report.noise_kept, 1);
}

#[test]
fn the_number_of_children_is_capped() {
    let ids = vec![1, 2, 3, 4, 5, 6];
    let labels = vec![0, 0, 1, 1, 2, 2];
    let mut run = match SplitRun::begin(7, 7, ids, &labels, 2) {
        SplitStart::Running { run } => run,
        other => panic!("{other:?}"),
    };
    let report = loop {
        let reply = match run.request().expect("small ids") {
            SplitRequest::NameCluster { .. } => SplitReply::Named { name: "n".to_string() },
            SplitRequest::CreateChild { .. } => SplitReply::Created { child: 9 },
            SplitRequest::Finish { report } => break report,
            _ => SplitReply::Stored,
        };
        run = run.advance(reply);
    };
    assert_eq!(report.children_created, 2);
    assert_eq!(report.reassigned + report.noise_kept, 6);
}
