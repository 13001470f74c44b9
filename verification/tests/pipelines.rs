use mnemos::clock::{parse_timestamp_rfc3339, seconds_or_zero};
use mnemos::config::{ConsolidationConfig, LlmConfig, StorageBackend, StorageConfig};
use mnemos::consolidation::{decay_action, DecayAction, DecayInput, DecayRequest, DecayRun};
use mnemos::cycle::{ConceptCandidate, CycleMemory, CycleReply, CycleRequest, CycleRun};
use mnemos::double::Double;
use mnemos::env::Env;
use mnemos::error::MnemosError;
use mnemos::providers::{
    build_chat_provider, build_embedding_provider, choose_chat_provider,
    choose_embedding_provider, ChatProvider, EmbeddingChoice,
};
use mnemos::sequence::{
    annotated, Heading, PlaceRun, SequenceInfo, WalkRequest, WalkRun,
};
use mnemos::storage::{OpenPlan, Storage};
use mnemos::types::ConsolidationReport;

fn double(x: f64) -> Double {
    Double { bits: x.to_bits() }
}

fn env(vars: &[(&str, &str)]) -> Env {
    let mut list = Vec::new();
    for (k, v) in vars {
        list.push(((*k).to_string(), (*v).to_string()));
    }
    Env { vars: list }
}

fn store(backend: StorageBackend) -> StorageConfig {
    StorageConfig {
        url: "http://localhost:6969".to_string(),
        data_root: "./data/helix".to_string(),
        database: "mnemos".to_string(),
        backend,
        object_bucket: String::new(),
        object_region: "us-east-1".to_string(),
        object_endpoint: None,
        object_allow_http: false,
    }
}

#[test]
fn from_config_builds_without_network_io() {
    let config = store(StorageBackend::Http);
    let storage = Storage::from_config(&config);
    assert_eq!(storage.database(), config.database);
    assert_eq!(storage.url(), config.url);
}

#[test]
fn embedded_memory_opens_in_process() {
    let config = store(StorageBackend::EmbeddedMemory);
    let storage = Storage::from_config(&config);
    assert!(matches!(storage.plan, OpenPlan::Memory { .. }));
    assert_eq!(storage.database(), config.database);
    assert_eq!(storage.url(), "embedded://memory/mnemos");
}

#[test]
fn stores_are_named_by_their_place() {
    assert_eq!(
        Storage::from_config(&store(StorageBackend::EmbeddedDisk)).url(),
        "embedded://disk/./data/helix/mnemos"
    );
    let object = StorageConfig {
        object_bucket: "b".to_string(),
        ..store(StorageBackend::ObjectStorage)
    };
    assert_eq!(Storage::from_config(&object).url(), "embedded://object/b/mnemos");
}

#[test]
fn timestamps_give_seconds() {
    assert_eq!(parse_timestamp_rfc3339("1970-01-01T00:01:00Z"), 60);
    assert_eq!(parse_timestamp_rfc3339("1970-01-01T01:00:00+01:00"), 0);
    assert_eq!(parse_timestamp_rfc3339("not-a-timestamp"), 0);
    assert_eq!(seconds_or_zero(Some(-5)), -5);
}

fn input(id: u64, kept: f64, importance: f64, activations: i64) -> DecayInput {
    DecayInput {
        id,
        kept: double(kept),
        importance: double(importance),
        activation_count: activations,
    }
}

#[test]
fn strength_decides_what_happens() {
    let config = ConsolidationConfig::default();
    assert_eq!(decay_action(&input(1, 0.0, 0.0, 0), &config), DecayAction::Prune);
    assert_eq!(decay_action(&input(1, 1.0, 1.0, 1000), &config), DecayAction::Promote);
    assert_eq!(decay_action(&input(1, 1.0, 1.0, 0), &config), DecayAction::Keep);
}

#[test]
fn a_decay_pass_reports_each_change() {
    let config = ConsolidationConfig::default();
    let inputs = vec![input(1, 0.0, 0.0, 0), input(2, 1.0, 1.0, 0), input(3, 1.0, 1.0, 1000)];
    let mut run = DecayRun::begin(&inputs, &config);
    assert_eq!(run.request().unwrap(), DecayRequest::Prune { engram: 1 });
    run = run.advance();
    assert_eq!(run.request().unwrap(), DecayRequest::Promote { engram: 3 });
    run = run.advance();
    assert_eq!(
        run.request().unwrap(),
        DecayRequest::Finish {
            report: ConsolidationReport {
                pruned: 1,
                compressed: 0,
                promoted: 1,
                contradictions_linked: 0
            }
        }
    );
    let run = DecayRun::begin(&vec![input(u64::MAX, 0.0, 0.0, 0)], &config);
    assert!(matches!(run.request(), Err(MnemosError::Storage(_))));
}

fn concept(id: u64, count: i64) -> ConceptCandidate {
    ConceptCandidate {
        id,
        name: format!("concept {id}"),
        confidence: double(0.9),
        source_count: count,
    }
}

fn cycle(memory: CycleMemory, candidates: Vec<ConceptCandidate>) -> (CycleRun, Vec<CycleRequest>) {
    let mut run = CycleRun::begin(memory, true, true, true, ConsolidationReport::default());
    let mut candidates = Some(candidates);
    let mut asked = Vec::new();
    loop {
        let request = run.request();
        asked.push(request);
        run = match request {
            CycleRequest::MoveOn => run.move_on(),
            CycleRequest::FetchCandidates { min } => {
                assert_eq!(min, 10);
                run.supply(candidates.take())
            }
            CycleRequest::Split { .. } => run.advance(CycleReply::Split { children: Some(2) }),
            CycleRequest::Crystallize { .. } => {
                run.advance(CycleReply::Crystallized { identity: Some(77) })
            }
            CycleRequest::Define { .. } => run.advance(CycleReply::Defined),
            CycleRequest::Scan { .. } => run.advance(CycleReply::Scanned { ok: true }),
            CycleRequest::CountContradictions => {
                run.advance(CycleReply::Counted { contradictions: Some(1) })
            }
            CycleRequest::Finish { .. } => return (run, asked),
        };
    }
}

#[test]
fn a_cycle_handles_each_concept_once() {
    let (run, asked) = cycle(CycleMemory::new(), vec![concept(5, 12)]);
    assert!(asked.contains(&CycleRequest::Split { concept: 5 }));
    assert!(asked.contains(&CycleRequest::Crystallize { concept: 5 }));
    assert!(asked.contains(&CycleRequest::Define { concept: 5, identity: 77 }));
    assert!(asked.contains(&CycleRequest::Scan { concept: 5 }));
    assert_eq!(
        run.summary(),
        "candidates=1 mitosis_children=2 identities=1 skipped_unchanged=0"
    );
    let (run, asked) = cycle(run.memory, vec![concept(5, 12)]);
    assert!(asked
        .iter()
        .all(|r| matches!(
            r,
            CycleRequest::MoveOn
                | CycleRequest::FetchCandidates { .. }
                | CycleRequest::Finish { .. }
        )));
    assert_eq!(
        run.summary(),
        "candidates=1 mitosis_children=0 identities=0 skipped_unchanged=1"
    );
    let (run, asked) = cycle(run.memory, vec![concept(5, 13)]);
    assert!(asked.contains(&CycleRequest::Split { concept: 5 }));
    assert!(!asked.contains(&CycleRequest::Crystallize { concept: 5 }));
    assert_eq!(run.memory.seen, vec![(5, 13)]);
    assert_eq!(run.memory.crystallized, vec![5]);
}

#[test]
fn plain_cycles_end_with_the_decay_report() {
    let report = ConsolidationReport { pruned: 3, ..ConsolidationReport::default() };
    let run = CycleRun::begin(CycleMemory::new(), false, true, true, report);
    assert_eq!(run.request(), CycleRequest::Finish { report });
}

#[test]
fn candidates_that_cannot_be_fetched_are_none() {
    let run =
        CycleRun::begin(CycleMemory::new(), true, true, true, ConsolidationReport::default());
    let run = run.supply(None);
    assert_eq!(run.request(), CycleRequest::Finish { report: ConsolidationReport::default() });
}

#[test]
fn walks_reach_each_memory_once() {
    let mut run = WalkRun::begin(1, 2, "both");
    let mut asked = Vec::new();
    loop {
        match run.request() {
            WalkRequest::Fetch { engram_id, heading } => {
                asked.push((engram_id, heading));
                let next = match (engram_id, heading) {
                    (1, Heading::Down) => vec![2, 3],
                    (2, Heading::Down) => vec![3, 1, 4],
                    (1, Heading::Up) => vec![9],
                    _ => vec![],
                };
                run = run.arrive(&next);
            }
            WalkRequest::MoveOn => run = run.move_on(),
            WalkRequest::Finish => break,
        }
    }
    assert_eq!(run.chain, vec![2, 3, 4, 9]);
    assert_eq!(asked[0], (1, Heading::Down));
    assert!(asked.contains(&(1, Heading::Up)));
    let run = WalkRun::begin(1, 0, "down");
    assert_eq!(run.request(), WalkRequest::Finish);
}

#[test]
fn walks_hold_what_is_within_their_depth() {
    // 1 -> 2 -> 3 -> 4 -> 1, and 2 -> 5 -> 4.
    let after = |id: u64| match id {
        1 => vec![2],
        2 => vec![3, 5],
        3 => vec![4],
        4 => vec![1],
        5 => vec![4],
        _ => vec![],
    };
    let walk = |depth: usize| {
        let mut run = WalkRun::begin(1, depth, "down");
        let mut steps = 0;
        loop {
            run = match run.request() {
                WalkRequest::Fetch { engram_id, .. } => run.arrive(&after(engram_id)),
                WalkRequest::MoveOn => run.move_on(),
                WalkRequest::Finish => break,
            };
            steps += 1;
        }
        assert!(steps <= run.chain.len() + depth + 1);
        run.chain
    };
    assert!(walk(0).is_empty());
    assert_eq!(walk(1), vec![2]);
    assert_eq!(walk(2), vec![2, 3, 5]);
    assert_eq!(walk(3), vec![2, 3, 5, 4]);
    assert_eq!(walk(50), vec![2, 3, 5, 4]);
}

fn llm() -> LlmConfig {
    LlmConfig {
        api_key: "k".into(),
        base_url: "http://chat/".into(),
        model: "m".into(),
        embedding_model: "e".into(),
        embedding_base_url: "http://embed/".into(),
        embedding_dim: 1536,
    }
}

#[test]
fn providers_are_chosen_by_name() {
    match build_chat_provider(&env(&[("LLM_PROVIDER", " XAI "), ("XAI_API_KEY", "x")]), &llm()) {
        Ok(ChatProvider::OpenAi(p)) => {
            assert_eq!(p.api_key, "x");
            assert_eq!(p.base_url, "http://chat");
        }
        other => panic!("{other:?}"),
    }
    match choose_chat_provider("anthropic", &env(&[]), &llm()) {
        Ok(ChatProvider::Anthropic(p)) => assert_eq!(p.base_url(), "https://api.anthropic.com/v1"),
        other => panic!("{other:?}"),
    }
    assert!(matches!(
        build_chat_provider(&env(&[("LLM_PROVIDER", "OLLAMA")]), &llm()),
        Ok(ChatProvider::Ollama(_))
    ));
    assert_eq!(
        build_chat_provider(&env(&[("LLM_PROVIDER", "Foo")]), &llm()).unwrap_err(),
        "unknown LLM_PROVIDER=\"foo\" (expected openai|xai|anthropic|ollama)"
    );
    match build_embedding_provider(&env(&[]), &llm()) {
        Ok(EmbeddingChoice::OpenAi(p)) => assert_eq!(p.base_url, "http://embed"),
        other => panic!("{other:?}"),
    }
    assert!(matches!(
        build_embedding_provider(&env(&[("EMBEDDING_PROVIDER", "LOCAL")]), &llm()),
        Ok(EmbeddingChoice::Local)
    ));
    assert_eq!(
        choose_embedding_provider("x", &llm()).unwrap_err(),
        "unknown EMBEDDING_PROVIDER=\"x\" (expected openai|local)"
    );
}

#[test]
fn a_memory_knows_its_place_in_a_sequence() {
    // 1 -> 2 -> 3 -> {4, 5}
    let mut run = PlaceRun::begin(3);
    assert_eq!(run.request(), WalkRequest::Fetch { engram_id: 3, heading: Heading::Down });
    run = run.arrive(vec![4, 5]);
    assert_eq!(run.request(), WalkRequest::Fetch { engram_id: 3, heading: Heading::Up });
    run = run.arrive(vec![2]);
    assert_eq!(run.request(), WalkRequest::Fetch { engram_id: 2, heading: Heading::Up });
    run = run.arrive(vec![3, 1]);
    run = run.arrive(vec![]);
    assert_eq!(run.request(), WalkRequest::Finish);
    let place = run.place();
    assert_eq!(
        place,
        Some(SequenceInfo { position: 2, head: 1, prev: Some(2), next: vec![4, 5] })
    );
    assert_eq!(
        annotated("ch3", place.as_ref()),
        "ch3 [sequential: pos=2 head=1 prev=2 next=4,5]"
    );
}

#[test]
fn a_head_stands_first_and_a_single_memory_nowhere() {
    let head = PlaceRun::begin(1).arrive(vec![2]).arrive(vec![]).place();
    assert_eq!(annotated("ch1", head.as_ref()), "ch1 [sequential: pos=0 head=1 next=2]");
    let alone = PlaceRun::begin(1).arrive(vec![]).arrive(vec![]).place();
    assert_eq!(alone, None);
    assert_eq!(annotated("once", None), "once");
    // A ring ends where it would come back.
    let ring = PlaceRun::begin(1).arrive(vec![2]).arrive(vec![2]).arrive(vec![1]).place();
    assert_eq!(ring.map(|p| (p.position, p.head)), Some((1, 2)));
}
