use mnemos::double::Double;
use mnemos::env::Env;
use mnemos::json::{read_json, JsonNumber};
use mnemos::reranker::{
    alpha_mode, features_from_log, features_from_result, feedback_log_path, finish_training,
    fixed_alpha, learning_summary, not_enough, online_finetuning, preference_pairs, recall_entry,
    reranker_model_path, reranker_seed_path, resolve_alpha, reward_entry, reward_events_in,
    reward_sign, strength, train_from_log, train_summary, AlphaRule, Feedback, RerankerModel,
    RewardSign, Training, FEATURE_DIM, MAX_PAIRS,
};
use mnemos::types::{results_data, ResonanceResult};

fn double(x: f64) -> Double {
    Double { bits: x.to_bits() }
}

fn value(d: Double) -> f64 {
    f64::from_bits(d.bits)
}

fn result(semantic: f64) -> ResonanceResult {
    ResonanceResult {
        engram_id: 1,
        resonance_score: double(semantic),
        episode_raw: "x".to_string(),
        emotional_charge: double(-0.25),
        importance_score: double(0.5),
        identity_alignment: double(1.0),
        semantic_sim: double(semantic),
        recency_weight: double(1.0),
        reward_score: double(0.0),
        reward_factor: double(1.0),
    }
}

#[test]
fn features_have_canonical_dim() {
    let row = features_from_result(&result(0.9), 3);
    assert_eq!(row.numbers.len() + 1, FEATURE_DIM);
    assert_eq!(row.position, 3);
    assert_eq!(row.numbers[0], JsonNumber::Float(double(0.9)));
    assert_eq!(row.numbers[2], JsonNumber::Float(double(0.25)));
}

#[test]
fn what_is_logged_is_read_back() {
    let shown = vec![result(0.9), result(0.4)];
    let mut log = Feedback::new();
    log.note(&recall_entry(7, "q", results_data(&shown)));
    log.note(&reward_entry(7, double(0.5)));
    assert_eq!(log.recalls[0].recall_id, 7);
    for (i, r) in shown.iter().enumerate() {
        assert_eq!(log.recalls[0].rows[i].numbers, features_from_result(r, i).numbers);
        assert_eq!(log.recalls[0].rows[i].position, i);
    }
    assert_eq!(log.with_sign(RewardSign::Positive).1, 1);
    log.note(&reward_entry(7, double(f64::NAN)));
    assert_eq!(log.with_sign(RewardSign::Positive).1, 1);
}

#[test]
fn training_needs_both_signs() {
    let lines = |list: &[&str]| -> Vec<String> { list.iter().map(|s| s.to_string()).collect() };
    let one = [
        r#"{"kind": "recall", "recall_id": 1, "results": [{}, {}]}"#,
        r#"{"kind": "reward", "recall_id": 1, "reward": 1.0}"#,
    ];
    assert_eq!(
        train_from_log(&lines(&one)).err(),
        Some(
            "not enough feedback yet (positive recalls=1, negative recalls=0); need both signs"
                .to_string()
        )
    );
    let both = [
        one[0],
        one[1],
        r#"{"kind": "recall", "recall_id": 2, "results": [{}]}"#,
        r#"{"kind": "reward", "recall_id": 2, "reward": -0.21}"#,
    ];
    let (_, training) = train_from_log(&lines(&both)).expect("both signs");
    assert_eq!(training.positives, vec![(0, 0), (0, 1)]);
    assert_eq!(training.negatives, vec![(1, 0)]);
    assert_eq!(training.pairs, vec![(0, 0), (1, 0)]);
}

#[test]
fn models_begin_without_training() {
    let m = RerankerModel::new();
    assert_eq!(m.version, 1);
    assert_eq!(m.weights.len(), FEATURE_DIM);
    assert!(m.weights.iter().all(|w| value(*w) == 0.0));
    let seed = RerankerModel::seed();
    let weights: Vec<f64> = seed.weights.iter().map(|w| value(*w)).collect();
    assert_eq!(weights, vec![3.0, 0.5, 0.0, 0.5, 0.5, 2.0, 1.0, 1.0, -0.2]);
    assert_eq!(value(seed.bias), -3.0);
}

#[test]
fn rewards_and_samples_are_counted() {
    let mut m = RerankerModel::new();
    m.record_reward();
    m.record_epoch(5);
    m.record_epoch(5);
    assert_eq!(m.reward_events, 1);
    assert_eq!(m.trained_samples, 10);
    m.reward_events = u64::MAX;
    m.record_reward();
    assert_eq!(m.reward_events, u64::MAX);
}

#[test]
fn alpha_follows_its_setting() {
    assert!(matches!(resolve_alpha(None, 3, 0), AlphaRule::Ceiling));
    assert!(matches!(
        resolve_alpha(Some(" AUTO "), 3, 10),
        AlphaRule::Ramp { reward_events: 3, min_pairs: 10 }
    ));
    assert!(matches!(resolve_alpha(Some("0.3"), 3, 10), AlphaRule::Fixed { text } if text == "0.3"));
    assert!(matches!(resolve_alpha(Some("some"), 3, 10), AlphaRule::Off));
    assert_eq!(value(fixed_alpha(double(0.3))), 0.3);
    assert_eq!(value(fixed_alpha(double(1.5))), 0.0);
    assert_eq!(value(fixed_alpha(double(f64::NAN))), 0.0);
    assert_eq!(alpha_mode(Some("  ")), "auto");
}

#[test]
fn rewards_have_signs() {
    assert_eq!(reward_sign(JsonNumber::Unsigned(1)), RewardSign::Positive);
    assert_eq!(reward_sign(JsonNumber::Signed(-1)), RewardSign::Negative);
    assert_eq!(reward_sign(JsonNumber::Unsigned(0)), RewardSign::Neutral);
    assert_eq!(reward_sign(JsonNumber::Float(double(-0.5))), RewardSign::Negative);
}

#[test]
fn feedback_is_gathered_by_recall() {
    let lines: Vec<String> = [
        r#"{"kind": "recall", "recall_id": 1, "results": [{"semantic_sim": 0.9}, {"semantic_sim": 0.4}]}"#,
        "not json",
        r#"{"kind": "recall", "recall_id": 2, "results": [{"semantic_sim": 0.2}]}"#,
        r#"{"kind": "reward", "recall_id": 1, "reward": 1.0}"#,
        r#"{"kind": "reward", "recall_id": 2, "reward": -1}"#,
    ]
    .iter()
    .map(|s| s.to_string())
    .collect();
    let log = Feedback::read(&lines);
    let (positives, good) = log.with_sign(RewardSign::Positive);
    let (negatives, bad) = log.with_sign(RewardSign::Negative);
    assert_eq!(good, 1);
    assert_eq!(bad, 1);
    assert_eq!(positives, vec![(0, 0), (0, 1)]);
    assert_eq!(negatives, vec![(1, 0)]);
    assert_eq!(log.recalls[0].rows[1].position, 1);
    assert_eq!(log.recalls[0].rows[0].numbers[0], JsonNumber::Float(double(0.9)));
}

#[test]
fn a_later_reward_replaces_an_earlier_one() {
    let lines: Vec<String> = [
        r#"{"kind": "recall", "recall_id": 1, "results": [{}]}"#,
        r#"{"kind": "reward", "recall_id": 1, "reward": 1.0}"#,
        r#"{"kind": "reward", "recall_id": 1, "reward": -1.0}"#,
    ]
    .iter()
    .map(|s| s.to_string())
    .collect();
    let log = Feedback::read(&lines);
    assert_eq!(log.with_sign(RewardSign::Positive).1, 0);
    assert_eq!(log.with_sign(RewardSign::Negative).1, 1);
}

#[test]
fn pairs_take_every_negative_with_each_positive() {
    assert_eq!(preference_pairs(2, 2), vec![(0, 0), (0, 1), (1, 0), (1, 1)]);
    assert_eq!(preference_pairs(1000, 1000).len(), MAX_PAIRS);
}

#[test]
fn training_reports() {
    assert_eq!(
        not_enough(2, 0),
        "not enough feedback yet (positive recalls=2, negative recalls=0); need both signs"
    );
    let training = Training {
        positives: vec![(0, 0), (0, 1)],
        negatives: vec![(1, 0), (1, 1)],
        pairs: vec![(0, 0), (0, 1), (1, 0), (1, 1)],
    };
    let mut model = RerankerModel::new();
    model.trained_samples = 7;
    let weights = vec![double(0.5); FEATURE_DIM];
    let summary =
        finish_training(&mut model, &training, weights, double(1.0), "m.json", "auto");
    assert_eq!(summary.get("model").and_then(|v| v.as_text()), Some("m.json"));
    assert_eq!(summary.get("pairs").and_then(|v| v.as_u64()), Some(4));
    assert_eq!(summary.get("positive_candidates").and_then(|v| v.as_u64()), Some(2));
    assert_eq!(summary.get("trained_samples").and_then(|v| v.as_u64()), Some(7 + 20 * 4));
    assert_eq!(model.trained_samples, 87);
    assert_eq!(value(model.weights[0]), 0.5);
    assert_eq!(value(model.bias), 1.0);
    model.trained_samples = u64::MAX - 1;
    let again = train_summary("m.json", &model, &training, "auto");
    assert_eq!(again.get("trained_samples").and_then(|v| v.as_u64()), Some(u64::MAX - 1));
    model.record_training(4, vec![], double(0.0));
    assert_eq!(model.trained_samples, u64::MAX);
}

#[test]
fn learning_is_summed_up() {
    let model = read_json(r#"{"reward_events": 12}"#).expect("valid JSON");
    assert_eq!(reward_events_in(Some(&model)), 12);
    assert_eq!(reward_events_in(None), 0);
    let pairs = JsonNumber::Unsigned(500);
    let summary = learning_summary(Some(&model), "auto", double(0.2), double(0.2), pairs, true);
    assert_eq!(
        summary.get("min_pairs_for_full_alpha").and_then(|v| v.as_u64()),
        Some(500)
    );
    assert_eq!(summary.get("online_finetuning").and_then(|v| v.as_bool()), Some(true));
    assert_eq!(summary.get("model").and_then(|v| v.as_text()), Some("local"));
    assert_eq!(summary.get("state").and_then(|v| v.as_text()), Some("active"));
    let seed = learning_summary(None, "auto", double(0.0), double(0.0), pairs, false);
    assert_eq!(seed.get("model").and_then(|v| v.as_text()), Some("seed"));
    assert_eq!(seed.get("state").and_then(|v| v.as_text()), Some("shadow"));
}

#[test]
fn paths_have_defaults() {
    let none = Env { vars: vec![] };
    assert_eq!(feedback_log_path(&none), "./data/helix/feedback.jsonl");
    assert_eq!(reranker_model_path(&none), "./data/helix/reranker.json");
    assert_eq!(reranker_seed_path(&none), "./models/reranker-seed.json");
}

#[test]
fn online_learning_is_on_unless_switched_off() {
    assert!(online_finetuning(&Env { vars: vec![] }));
    let off = Env { vars: vec![("MNEMOS_RERANKER_ONLINE".to_string(), "0".to_string())] };
    assert!(!online_finetuning(&off));
}

#[test]
fn logged_charges_lose_their_sign() {
    let row = read_json(r#"{"emotional_charge": -0.4, "semantic_sim": -0.5}"#).expect("valid JSON");
    let features = features_from_log(&row, 3);
    assert_eq!(features.position, 3);
    assert_eq!(features.numbers[2], JsonNumber::Float(double(0.4)));
    assert_eq!(features.numbers[0], JsonNumber::Float(double(-0.5)));
    assert_eq!(strength(JsonNumber::Signed(i64::MIN)), JsonNumber::Unsigned(1 << 63));
    assert_eq!(strength(JsonNumber::Signed(-3)), JsonNumber::Unsigned(3));
    assert_eq!(strength(JsonNumber::Unsigned(3)), JsonNumber::Unsigned(3));
}
