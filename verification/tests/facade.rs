use mnemos::env::Env;
use mnemos::error::MnemosError;
use mnemos::facade::{
    count_binding, count_value, defines_params, index_dimension, index_message, memory_snippet,
    oversampled, reward_note, stats_of, wave_enabled,
};
use mnemos::json::{read_json, Json};

fn json(text: &str) -> Json {
    read_json(text).expect("valid JSON")
}

fn env(vars: &[(&str, &str)]) -> Env {
    let mut list = Vec::new();
    for (k, v) in vars {
        list.push(((*k).to_string(), (*v).to_string()));
    }
    Env { vars: list }
}

#[test]
fn count_binding_handles_response_shapes() {
    assert_eq!(count_binding(&json(r#"{"engrams": 5}"#), "engrams"), 5);
    assert_eq!(count_binding(&json(r#"{"engrams": [7]}"#), "engrams"), 7);
    assert_eq!(count_binding(&json(r#"{"engrams": [{"count": 3}]}"#), "engrams"), 3);
    assert_eq!(count_binding(&json(r#"{"engrams": {"count": 4}}"#), "engrams"), 4);
    assert_eq!(count_binding(&json("{}"), "engrams"), 0);
    assert_eq!(count_binding(&json(r#"{"engrams": null}"#), "engrams"), 0);
}

#[test]
fn stats_come_from_their_bindings() {
    let stats = stats_of(&json(
        r#"{"engrams": 5, "contradicted": [2], "concepts": {"count": 3}, "identities": [{"count": 1}]}"#,
    ));
    assert_eq!(stats.total_engrams, 5);
    assert_eq!(stats.contradictions, 2);
    assert_eq!(stats.concepts, 3);
    assert_eq!(stats.identities, 1);
}

#[test]
fn counts_that_are_none() {
    assert_eq!(count_value(&json("-4")), 0);
    assert_eq!(count_value(&json("\"7\"")), 0);
    assert_eq!(count_value(&json("[]")), 0);
}

#[test]
fn recall_asks_for_more_than_it_shows() {
    assert_eq!(oversampled(5), 10);
    assert_eq!(oversampled(usize::MAX), usize::MAX);
}

#[test]
fn snippets_hold_the_episode() {
    assert_eq!(
        memory_snippet("the sky is blue", "0.91", "0.50"),
        "[Memory: the sky is blue (relevance: 0.91)]\nthe sky is blue [importance: 0.50]\n"
    );
    let long = "x".repeat(61);
    assert!(memory_snippet(&long, "1", "1")
        .starts_with(&format!("[Memory: {} (relevance", "x".repeat(60))));
}

#[test]
fn reward_note_names_the_recall() {
    assert_eq!(
        reward_note(Some(7)),
        "\n[Note: consider rewarding this recall via recall_id=7 with the reward tool]\n"
    );
    assert_eq!(
        reward_note(None),
        "\n[Note: consider rewarding this recall with the reward tool]\n"
    );
}

#[test]
fn the_wave_is_switched_by_the_environment() {
    assert!(wave_enabled(&env(&[])));
    assert!(wave_enabled(&env(&[("MNEMOS_RECALL_WAVE", "1")])));
    assert!(!wave_enabled(&env(&[("MNEMOS_RECALL_WAVE", " OFF ")])));
}

#[test]
fn an_index_needs_a_dimension() {
    assert_eq!(index_dimension(384).expect("a dimension"), 384);
    assert!(matches!(
        index_dimension(0),
        Err(MnemosError::Storage(m)) if m == "dimension must be > 0: 0"
    ));
    assert_eq!(
        index_message(384, "{}"),
        "vector index on Engram.embedding (dim 384): {}"
    );
}

#[test]
fn ids_of_a_trait_edge_fit_a_query() {
    assert_eq!(defines_params(3, 4).expect("small ids"), (3, 4));
    assert!(matches!(
        defines_params(u64::MAX, 4),
        Err(MnemosError::Storage(m)) if m == "concept id overflow: 18446744073709551615"
    ));
    assert!(matches!(
        defines_params(3, 9223372036854775808),
        Err(MnemosError::Storage(m)) if m == "identity id overflow: 9223372036854775808"
    ));
}
