use mnemos::double::Double;
use mnemos::error::MnemosError;
use mnemos::json::{read_json, Json};
use mnemos::recall::{RecallPhase, RecallRequest, RecallRun, Resonance};
use mnemos::retrieval::{
    drop_irrelevant, fetch_limit, identity_traits, next_activation, positions, top_results,
    RecallLedger, LEDGER_CAPACITY,
};
use mnemos::stimulation::{
    merge_wave, parse_id_value, parse_neighbor_ids, Discovery, StimulationEngine, StoredEngram,
    WaveEdge, WaveRequest, WaveRun,
};
use mnemos::types::{EngramCandidate, ResonanceResult};

fn json(text: &str) -> Json {
    read_json(text).expect("valid JSON")
}

fn double(x: f64) -> Double {
    Double { bits: x.to_bits() }
}

fn value(d: Double) -> f64 {
    f64::from_bits(d.bits)
}

fn result(id: u64, score: f64) -> ResonanceResult {
    ResonanceResult {
        engram_id: id,
        resonance_score: double(score),
        episode_raw: format!("engram {id}"),
        emotional_charge: double(0.0),
        importance_score: double(0.5),
        identity_alignment: double(1.0),
        semantic_sim: double(score),
        recency_weight: double(1.0),
        reward_score: double(0.0),
        reward_factor: double(1.0),
    }
}

fn candidate(id: u64) -> EngramCandidate {
    EngramCandidate {
        id,
        episode_raw: format!("engram {id}"),
        emotional_charge: double(0.0),
        importance_score: double(0.5),
        decay_rate: double(0.05),
        activation_count: 0,
        timestamp: "2026-06-01T00:00:00Z".to_string(),
        engram_type: "episodic".to_string(),
        compression_level: 0,
        contradiction_flag: false,
        distance: double(0.1),
    }
}

fn resonance(score: f64) -> Resonance {
    Resonance {
        resonance_score: double(score),
        semantic_sim: double(score),
        recency_weight: double(1.0),
        reward_score: double(0.0),
        reward_factor: double(1.0),
        effective: double(score),
    }
}

fn ids(results: &[ResonanceResult]) -> Vec<u64> {
    results.iter().map(|r| r.engram_id).collect()
}

#[test]
fn results_come_strongest_first() {
    let list = vec![result(1, 0.2), result(2, 0.9), result(3, 0.2), result(4, -0.5)];
    assert_eq!(ids(&top_results(list, 3)), vec![2, 1, 3]);
    assert!(top_results(vec![result(1, 1.0)], 0).is_empty());
}

#[test]
fn positions_go_by_score() {
    let scores = [0.2, 0.9, 0.2, -0.5].map(double).to_vec();
    assert_eq!(positions(&scores), vec![1, 0, 2, 3]);
    assert!(positions(&vec![]).is_empty());
}

#[test]
fn hits_below_the_floor_are_dropped() {
    let hits = || vec![result(1, 0.9), result(2, 0.5), result(3, 0.1)];
    let effective = vec![double(0.9), double(0.7), double(0.1)];
    assert_eq!(ids(&drop_irrelevant(hits(), &effective, double(0.7), double(0.0))), vec![1, 2]);
    assert_eq!(ids(&drop_irrelevant(hits(), &effective, double(0.0), double(0.0))).len(), 3);
    assert_eq!(ids(&drop_irrelevant(hits(), &effective, double(0.0), double(0.3))), vec![1, 2]);
}

#[test]
fn activation_counts_go_up_by_one() {
    assert_eq!(next_activation(&json(r#"{"engram": [{"activation_count": 4}]}"#)), 5);
    assert_eq!(next_activation(&json("{}")), 1);
    assert_eq!(
        next_activation(&json(r#"{"engram": [{"activation_count": 9223372036854775807}]}"#)),
        i64::MAX
    );
    assert_eq!(fetch_limit(5), 5);
}

#[test]
fn traits_without_numbers_are_skipped() {
    let reply = json(
        r#"{"traits": [{"value": 0.8, "stability": 0.5}, {"value": "x", "stability": 1}, {"value": 1, "stability": 1}]}"#,
    );
    assert_eq!(identity_traits(&reply).len(), 2);
    assert!(identity_traits(&json("{}")).is_empty());
}

#[test]
fn floors_that_are_not_set_have_defaults() {
    let run = RecallRun::with_floors(5, None, None);
    assert_eq!((run.limit, run.min_sim, run.min_score), (5, double(0.70), double(0.0)));
    let run = RecallRun::with_floors(5, Some(double(0.0)), Some(double(0.4)));
    assert_eq!((run.min_sim, run.min_score), (double(0.0), double(0.4)));
    let run = RecallRun::with_floors(5, Some(double(2e9)), Some(double(-1.0)));
    assert_eq!((run.min_sim, run.min_score), (double(2e9), double(-1.0)));
    let run = RecallRun::with_floors(5, Some(double(f64::NAN)), Some(double(f64::NAN)));
    assert_eq!((run.min_sim, run.min_score), (double(0.70), double(0.0)));
}

#[test]
fn a_recall_runs_through_its_steps() {
    let mut ledger = RecallLedger::new();
    let mut run = RecallRun::begin(2, double(0.7), double(0.0));
    assert_eq!(run.request(), RecallRequest::Embed);
    run = run.embedded(Ok(()));
    assert_eq!(run.request(), RecallRequest::Search { fetch: 2 });
    run = run.found(Ok(vec![candidate(1), candidate(2), candidate(3)]));
    for id in 1..=3 {
        assert_eq!(run.request(), RecallRequest::Align { engram: id });
        run = run.aligned(double(1.0));
    }
    assert_eq!(run.request(), RecallRequest::Score);
    run = run.scored(&vec![resonance(0.8), resonance(0.95), resonance(0.3)]);
    assert_eq!(run.request(), RecallRequest::ReadActivation { engram: 2 });
    run = run.activation_read(Some(&json(r#"{"engram": [{"activation_count": 4}]}"#)));
    assert_eq!(run.request(), RecallRequest::WriteActivation { engram: 2, count: 5 });
    run = run.activation_written();
    assert_eq!(run.request(), RecallRequest::ReadActivation { engram: 1 });
    run = run.activation_read(None);
    assert_eq!(run.request(), RecallRequest::Attribute);
    run = run.attributed(double(0.4), &mut ledger);
    assert_eq!(run.request(), RecallRequest::Finish);
    match run.phase {
        RecallPhase::Done { hits, recall_id } => {
            assert_eq!(ids(&hits), vec![2, 1]);
            assert_eq!(hits[0].episode_raw, "engram 2");
            assert_eq!(hits[0].identity_alignment, double(1.0));
            assert_eq!(hits[0].resonance_score, double(0.95));
            assert_eq!(recall_id, 1);
        }
        other => panic!("{other:?}"),
    }
    let redeemed = ledger.redeem(1);
    assert!(redeemed.hit);
    assert_eq!(value(redeemed.attributions[0]), 0.4);
    assert_eq!(redeemed.attributions.len(), 8);
}

#[test]
fn a_failed_search_ends_a_recall() {
    let run = RecallRun::begin(2, double(0.7), double(0.0)).embedded(Ok(()));
    let run = run.found(Err("search_engrams_full: down".to_string()));
    assert_eq!(run.request(), RecallRequest::Finish);
    assert!(matches!(
        run.phase,
        RecallPhase::Failed { error: MnemosError::Storage(m) } if m == "search_engrams_full: down"
    ));
    let run = RecallRun::begin(2, double(0.7), double(0.0))
        .embedded(Err(MnemosError::Embedding("no".to_string())));
    assert!(matches!(run.phase, RecallPhase::Failed { error: MnemosError::Embedding(_) }));
}

#[test]
fn recalls_are_rewarded_apart() {
    let mut ledger = RecallLedger::new();
    let a = ledger.record(vec![double(0.1)]);
    let b = ledger.record(vec![double(0.2)]);
    assert_eq!(ledger.last_recall_id(), Some(b));
    assert_eq!(value(ledger.redeem(a).attributions[0]), 0.1);
    let missed = ledger.redeem(a);
    assert!(!missed.hit);
    assert_eq!(value(missed.attributions[0]), 0.1);
    let hit = ledger.redeem(b);
    assert!(hit.hit);
    assert_eq!(value(hit.attributions[0]), 0.2);
    assert_eq!(ledger.last_recall_id(), None);
}

#[test]
fn the_ledger_forgets_the_oldest() {
    let mut ledger = RecallLedger::new();
    for i in 0..LEDGER_CAPACITY + 1 {
        ledger.record(vec![double(i as f64)]);
    }
    assert_eq!(ledger.entries.len(), LEDGER_CAPACITY);
    assert!(!ledger.redeem(1).hit);
    assert!(ledger.redeem(2).hit);
}

#[test]
fn a_recall_stays_rewardable_until_the_ledger_is_full() {
    let mut ledger = RecallLedger::new();
    let first = ledger.record(vec![double(0.25)]);
    for i in 1..LEDGER_CAPACITY {
        ledger.record(vec![double(i as f64)]);
    }
    let redeemed = ledger.redeem(first);
    assert!(redeemed.hit);
    assert_eq!(value(redeemed.attributions[0]), 0.25);
}

#[test]
fn given_attributions_are_remembered() {
    let mut ledger = RecallLedger::new();
    assert!(ledger.attribute(vec![]).is_empty());
    assert_eq!(ledger.attribute(vec![double(0.5)]).len(), 1);
    assert_eq!(value(ledger.attribute(vec![])[0]), 0.5);
}

#[test]
fn threshold_filter_is_strict() {
    let activations =
        vec![(1, double(0.5)), (2, double(0.15)), (3, double(0.149)), (4, double(0.0))];
    // 0.15 is NOT above tau=0.15; only id 1 surfaces.
    assert_eq!(StimulationEngine::surfaced(&activations, double(0.15)), vec![1]);
    assert_eq!(StimulationEngine::surfaced(&activations, double(0.1)), vec![1, 2, 3]);
}

#[test]
fn parse_handles_id_shapes() {
    let v = json(r#"{"neighbors": [3, {"$id": 5}, {"id": 9}, "11", 12.0, {"$id": -1}, null]}"#);
    assert_eq!(parse_neighbor_ids(&v), vec![3, 5, 9, 11, 12]);
    assert!(parse_neighbor_ids(&json(r#"{"other": []}"#)).is_empty());
    assert_eq!(parse_id_value(&json(r#"{"$id": {"id": "7"}}"#)), Some(7));
}

#[test]
fn a_wave_spreads_until_nothing_arrives() {
    let mut run = WaveRun::begin(vec![(1, double(0.9)), (2, double(0.1))], double(0.15), 2);
    let mut asked = Vec::new();
    loop {
        match run.request() {
            WaveRequest::Spread { engram_id, edge, activation } => {
                asked.push((engram_id, edge));
                let neighbors = if engram_id == 1 && edge == WaveEdge::Reinforces {
                    vec![2, 7]
                } else {
                    vec![]
                };
                run = run.spread(&neighbors, double(value(activation) * 0.5));
            }
            WaveRequest::MoveOn => run = run.move_on(),
            WaveRequest::Finish => break,
        }
    }
    assert_eq!(
        asked[..3],
        [
            (1, WaveEdge::Reinforces),
            (1, WaveEdge::TemporalSequence),
            (1, WaveEdge::Contradicts)
        ]
    );
    let found = run.discovered();
    assert_eq!(found.len(), 1);
    assert_eq!(found[0].0, 7);
    assert_eq!(value(found[0].1), 0.45);
    assert_eq!(WaveEdge::Reinforces.label(), "Reinforces");
    assert_eq!(WaveEdge::Contradicts.weight_index(), 4);
}

#[test]
fn discoveries_join_the_results() {
    let discovery = |engram_id: u64, score: f64, row: Option<StoredEngram>| Discovery {
        engram_id,
        score: double(score),
        row,
    };
    let row = StoredEngram {
        episode_raw: "a stored memory".to_string(),
        emotional_charge: double(-0.4),
        importance_score: double(0.8),
    };
    let discovered = vec![discovery(7, 0.3, Some(row)), discovery(8, 0.8, None)];
    let merged = merge_wave(vec![result(1, 0.9), result(2, 0.2)], &discovered, 2);
    assert_eq!(ids(&merged), vec![1, 7]);
    assert_eq!(merged[1].episode_raw, "a stored memory");
    assert_eq!(value(merged[1].emotional_charge), -0.4);
    assert_eq!(value(merged[1].importance_score), 0.8);
    assert_eq!(value(merged[1].resonance_score), 0.3);
}
