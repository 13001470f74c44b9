use mnemos::cli_args::{parse_args, Command};
use mnemos::daemon::{
    consolidate_interval, daemon_request, dispatch, embedding_status, failed_status,
    is_reasoning, llm_status, not_running, read_answer, reads_like_reasoning, refused_status,
    setup_on_start, Answer, Dispatch,
};
use mnemos::double::Double;
use mnemos::env::Env;
use mnemos::http_api::{
    error_envelope, execute_cli_value, ingest_data, ok_envelope, recall_data, status_data,
    CliCall, FloatArg,
};
use mnemos::json::{Json, JsonNumber};
use mnemos::types::{MemoryStats, ResonanceResult};

fn result() -> ResonanceResult {
    let one = Double { bits: 1.0f64.to_bits() };
    ResonanceResult {
        engram_id: 1,
        resonance_score: one,
        episode_raw: "x".to_string(),
        emotional_charge: one,
        importance_score: one,
        identity_alignment: one,
        semantic_sim: one,
        recency_weight: one,
        reward_score: one,
        reward_factor: one,
    }
}

fn argv(words: &[&str]) -> Vec<String> {
    let mut out = vec!["engram".to_string()];
    for word in words {
        out.push((*word).to_string());
    }
    out
}

fn asked(words: &[&str]) -> Result<CliCall, (u16, String)> {
    let command = parse_args(&argv(words));
    let request = daemon_request(&command, Json::number(1), vec![Json::number(2)])
        .expect("a request");
    execute_cli_value(&request)
}

#[test]
fn memory_commands_go_to_the_daemon() {
    assert_eq!(dispatch(&parse_args(&argv(&["recall", "x"]))), Dispatch::Forward);
    assert_eq!(dispatch(&parse_args(&argv(&["stats"]))), Dispatch::Forward);
    assert_eq!(dispatch(&parse_args(&argv(&["status"]))), Dispatch::Forward);
    assert_eq!(dispatch(&parse_args(&argv(&["mcp-tools"]))), Dispatch::Local);
    assert_eq!(dispatch(&parse_args(&argv(&["serve"]))), Dispatch::Serve);
    assert_eq!(dispatch(&parse_args(&argv(&["help"]))), Dispatch::ShowUsage);
    assert_eq!(dispatch(&parse_args(&argv(&["help-all"]))), Dispatch::ShowUsageAll);
    assert_eq!(dispatch(&parse_args(&argv(&["nope"]))), Dispatch::Reject);
    assert_eq!(dispatch(&parse_args(&argv(&["train-reranker"]))), Dispatch::Train);
}

#[test]
fn the_daemon_understands_the_shell() {
    assert_eq!(
        asked(&["ingest", "a", "b", "--seq=3", "--seq-pos=1"]),
        Ok(CliCall::IngestSequential { text: "a b".to_string(), prev_id: 3, seq_pos: Some(1) })
    );
    assert_eq!(
        asked(&["ingest", "a", "b"]),
        Ok(CliCall::Ingest { text: "a b".to_string() })
    );
    assert_eq!(
        asked(&["recall", "q", "--limit", "9"]),
        Ok(CliCall::Recall { query: "q".to_string(), limit: 9 })
    );
    assert_eq!(
        asked(&["recall", "--follow-seq", "4", "--depth", "2", "--dir", "up"]),
        Ok(CliCall::FollowSequence { start: 4, depth: 2, dir: "up".to_string() })
    );
    assert_eq!(
        asked(&["reward", "1"]),
        Ok(CliCall::Reward {
            attributions: vec![FloatArg::Number(JsonNumber::Unsigned(2))],
            score: FloatArg::Number(JsonNumber::Unsigned(1))
        })
    );
    assert_eq!(
        asked(&["reward", "1", "--recall-id=5"]),
        Ok(CliCall::RewardWithId {
            recall_id: 5,
            score: FloatArg::Number(JsonNumber::Unsigned(1))
        })
    );
    assert_eq!(asked(&["consolidate"]), Ok(CliCall::Consolidate { aggressive: true }));
    assert_eq!(asked(&["setup"]), Ok(CliCall::Setup));
    assert_eq!(asked(&["stats"]), Ok(CliCall::Stats));
}

#[test]
fn negative_positions_arrive() {
    assert_eq!(
        asked(&["ingest", "a", "--seq=3", "--seq-pos=-1"]),
        Ok(CliCall::IngestSequential { text: "a".to_string(), prev_id: 3, seq_pos: Some(-1) })
    );
}

#[test]
fn some_commands_send_nothing() {
    assert!(daemon_request(&Command::Serve, Json::Null, vec![]).is_none());
    assert!(daemon_request(&Command::Help, Json::Null, vec![]).is_none());
}

#[test]
fn answers_are_read_by_command() {
    let ingest = parse_args(&argv(&["ingest", "x"]));
    assert!(matches!(
        read_answer(&ingest, &ok_envelope(ingest_data(7))),
        Answer::EngramId { id: Some(Json::Number(JsonNumber::Unsigned(7))) }
    ));
    assert!(matches!(
        read_answer(&ingest, &ok_envelope(Json::Null)),
        Answer::EngramId { id: None }
    ));
    let recall = parse_args(&argv(&["recall", "x"]));
    assert!(matches!(
        read_answer(&recall, &ok_envelope(recall_data(&vec![], None))),
        Answer::DontKnow
    ));
    assert!(matches!(
        read_answer(&recall, &ok_envelope(recall_data(&vec![result()], None))),
        Answer::Data { .. }
    ));
    let reward = parse_args(&argv(&["reward", "1"]));
    assert!(matches!(read_answer(&reward, &ok_envelope(Json::Null)), Answer::RewardApplied));
    assert!(matches!(
        read_answer(&reward, &error_envelope("no")),
        Answer::Failed { message } if message == "no"
    ));
    assert!(matches!(
        read_answer(&reward, &Json::Null),
        Answer::Failed { message } if message == "unknown"
    ));
}

#[test]
fn silence_is_explained() {
    assert_eq!(
        not_running("http://x"),
        "engram daemon is not running (tried http://x). Start it with `engram serve` first."
    );
}

#[test]
fn consolidation_runs_only_when_asked_for() {
    let interval = |v: &str| {
        consolidate_interval(&Env {
            vars: vec![("MNEMOS_CONSOLIDATE_INTERVAL_SECS".to_string(), v.to_string())],
        })
    };
    assert_eq!(interval(" 30 "), 30);
    assert_eq!(interval("often"), 0);
    assert_eq!(consolidate_interval(&Env { vars: vec![] }), 0);
}

#[test]
fn reasoning_is_noticed() {
    assert!(is_reasoning("<think>hm</think> 4"));
    assert!(is_reasoning("My REASONING is"));
    assert!(is_reasoning(&"x".repeat(501)));
    assert!(!is_reasoning(&"x".repeat(500)));
    assert!(!is_reasoning("4"));
    assert!(reads_like_reasoning("A", "reasoning"));
}

#[test]
fn the_status_shows_every_part() {
    let llm = llm_status("openai", "m", "http://x", &"é".repeat(200));
    assert_eq!(llm.get("note").and_then(|v| v.as_text()), Some("instant"));
    assert_eq!(
        llm.get("sample").and_then(|v| v.as_text()).map(|s| s.chars().count()),
        Some(120)
    );
    assert_eq!(failed_status("e").get("ok").and_then(|v| v.as_bool()), Some(false));
    let refused = refused_status("e", "openai");
    assert_eq!(refused.get("error").and_then(|v| v.as_text()), Some("e"));
    assert_eq!(refused.get("provider").and_then(|v| v.as_text()), Some("openai"));
    assert_eq!(embedding_status(384, "local").get("dim").and_then(|v| v.as_u64()), Some(384));
    let stats = MemoryStats { total_engrams: 1, contradictions: 0, concepts: 0, identities: 0 };
    let whole = status_data(stats, Json::Null, failed_status("e"), llm);
    let note = whole.get("llm").and_then(|v| v.get("note")).and_then(|v| v.as_text());
    assert_eq!(note, Some("instant"));
    for part in ["storage", "embedding", "llm", "learning"] {
        assert!(whole.get(part).is_some(), "{part}");
    }
}

#[test]
fn the_first_start_sets_up_unless_told_not_to() {
    assert!(setup_on_start(&Env { vars: vec![] }));
    let off = Env { vars: vec![("MNEMOS_SETUP_ON_START".to_string(), "0".to_string())] };
    assert!(!setup_on_start(&off));
}
