use mnemos::contradiction::PairMeasure;
use mnemos::double::Double;
use mnemos::json::Json;
use mnemos::mcp_protocol::{
    consolidate_payload, effective_recall_limit, map_importance, parse_engram_type,
    recall_payload, CheckRun, ContradictionCandidate, StoreParams, DEFAULT_RECALL_LIMIT,
    MAX_RECALL_LIMIT,
};
use mnemos::mcp_server::{
    engram_cli, global_help, help_for_topic, help_payload, ingest_text, internal, ok_payload,
    parse_command, recall_args, report_payload, reward_args, stats_payload,
    topic_help, Command, McpErrorCode, MnemosCliParams, ToolCall,
};
use mnemos::mcp_tools::{
    default_recall_limit, help, help_consolidate, help_help, help_ingest, help_recall,
    help_reward, help_stats, help_status, recall_call, status_payload, tool_list, HelpParams,
    RecallCall, RecallParams,
};
use mnemos::types::{ConsolidationReport, EngramType, MemoryStats};

fn double(x: f64) -> Double {
    Double { bits: x.to_bits() }
}

fn params(command: &str) -> MnemosCliParams {
    MnemosCliParams {
        command: command.to_string(),
        text: None,
        query: None,
        limit: None,
        prev_id: None,
        seq_pos: None,
        follow_seq: None,
        seq_depth: None,
        seq_dir: None,
        attributions: None,
        score: None,
        recall_id: None,
        args: None,
    }
}

#[test]
fn recall_limit_defaults_to_five_when_omitted() {
    assert_eq!(DEFAULT_RECALL_LIMIT, 5);
    assert_eq!(effective_recall_limit(None), 5);
}

#[test]
fn recall_limit_caps_at_fifty() {
    assert_eq!(MAX_RECALL_LIMIT, 50);
    assert_eq!(effective_recall_limit(Some(3)), 3);
    assert_eq!(effective_recall_limit(Some(50)), 50);
    assert_eq!(effective_recall_limit(Some(500)), 50);
}

#[test]
fn importance_maps_per_doc() {
    assert_eq!(map_importance(None), None);
    assert_eq!(map_importance(Some("auto")), None);
    assert_eq!(map_importance(Some("low")), Some(double(0.2)));
    assert_eq!(map_importance(Some("medium")), Some(double(0.5)));
    assert_eq!(map_importance(Some("high")), Some(double(0.85)));
}

#[test]
fn importance_unknown_falls_back_to_neutral() {
    assert_eq!(map_importance(Some("urgent")), Some(double(0.5)));
}

#[test]
fn engram_type_parses_per_doc() {
    assert_eq!(parse_engram_type(None), EngramType::Episodic);
    assert_eq!(parse_engram_type(Some("auto")), EngramType::Episodic);
    assert_eq!(parse_engram_type(Some("episodic")), EngramType::Episodic);
    assert_eq!(parse_engram_type(Some("semantic")), EngramType::Semantic);
    assert_eq!(parse_engram_type(Some("procedural")), EngramType::Procedural);
}

#[test]
fn names_of_kinds_read_back() {
    for kind in [EngramType::Episodic, EngramType::Semantic, EngramType::Procedural] {
        assert_eq!(parse_engram_type(Some(kind.as_str())), kind);
    }
}

#[test]
fn store_params_deserialize_with_optionals_missing() {
    let params = StoreParams {
        content: "the sky is blue".to_string(),
        importance: None,
        memory_type: None,
    };
    assert_eq!(map_importance(params.importance.as_deref()), None);
    assert_eq!(parse_engram_type(params.memory_type.as_deref()), EngramType::Episodic);
}

#[test]
fn parse_command_accepts_all_spec_commands() {
    assert_eq!(parse_command("ingest"), Ok(Command::Ingest));
    assert_eq!(parse_command("recall"), Ok(Command::Recall));
    assert_eq!(parse_command("reward"), Ok(Command::Reward));
    assert_eq!(parse_command("consolidate"), Ok(Command::Consolidate));
    assert_eq!(parse_command("stats"), Ok(Command::Stats));
    assert_eq!(parse_command("help"), Ok(Command::Help));
}

#[test]
fn parse_command_rejects_unknown_with_invalid_params() {
    for raw in ["", "forget", "INGEST", "ingest recall"] {
        let err = parse_command(raw).expect_err("unknown command must fail");
        assert_eq!(err.code, McpErrorCode::InvalidParams, "wrong code for `{raw}`");
    }
}

#[test]
fn ingest_requires_text() {
    let ok = MnemosCliParams { text: Some("hello".to_string()), ..params("ingest") };
    assert_eq!(ingest_text(&ok), Ok("hello"));
    let err = ingest_text(&params("ingest")).expect_err("missing text must fail");
    assert_eq!(err.code, McpErrorCode::InvalidParams);
}

#[test]
fn recall_defaults_limit_and_requires_query() {
    let defaulted = MnemosCliParams { query: Some("q".to_string()), ..params("recall") };
    assert_eq!(recall_args(&defaulted), Ok(("q", mnemos::mcp_server::DEFAULT_RECALL_LIMIT)));
    let custom =
        MnemosCliParams { query: Some("q".to_string()), limit: Some(2), ..params("recall") };
    assert_eq!(recall_args(&custom), Ok(("q", 2)));
    let err = recall_args(&params("recall")).expect_err("missing query must fail");
    assert_eq!(err.code, McpErrorCode::InvalidParams);
}

#[test]
fn reward_requires_attributions_and_score() {
    let ok = MnemosCliParams {
        attributions: Some(vec![double(1.0)]),
        score: Some(double(0.7)),
        ..params("reward")
    };
    assert_eq!(reward_args(&ok), Ok((&vec![double(1.0)], double(0.7))));
    let no_attr = MnemosCliParams { score: Some(double(0.7)), ..params("reward") };
    assert_eq!(
        reward_args(&no_attr).expect_err("missing attributions must fail").code,
        McpErrorCode::InvalidParams
    );
    let no_score =
        MnemosCliParams { attributions: Some(vec![double(1.0)]), ..params("reward") };
    assert_eq!(
        reward_args(&no_score).expect_err("missing score must fail").code,
        McpErrorCode::InvalidParams
    );
}

#[test]
fn help_no_topic_lists_five_commands() {
    let text = help_for_topic(None).expect("global help must succeed");
    for command in ["ingest", "recall", "reward", "consolidate", "stats"] {
        assert!(text.contains(command), "global help missing `{command}`: {text}");
    }
    assert_eq!(text, global_help());
}

#[test]
fn help_recall_mentions_query_and_limit() {
    let text = help_for_topic(Some("recall")).expect("recall help must succeed");
    assert!(text.contains("query"), "recall help missing `query`: {text}");
    assert!(text.contains("limit"), "recall help missing `limit`: {text}");
    assert_eq!(topic_help("recall"), Some(text));
}

#[test]
fn help_unknown_topic_errors_with_valid_topics() {
    let err = help_for_topic(Some("forget")).expect_err("unknown topic must fail");
    assert_eq!(err.code, McpErrorCode::InvalidParams);
    for topic in ["ingest", "recall", "reward", "consolidate", "stats"] {
        assert!(
            err.message.contains(topic),
            "error must list valid topics, missing `{topic}`: {}",
            err.message
        );
    }
}

#[test]
fn help_empty_args_means_global_help() {
    let p = MnemosCliParams { args: Some(vec![]), ..params("help") };
    let topic = p.args.as_ref().and_then(|args| args.first());
    assert!(topic.is_none());
    help_for_topic(topic.map(String::as_str)).expect("empty args → global help");
    assert!(matches!(engram_cli(&p), Ok(ToolCall::Help { text }) if text == global_help()));
}

#[test]
fn tool_calls_follow_commands() {
    let p = MnemosCliParams { text: Some("sky".to_string()), ..params("ingest") };
    assert!(matches!(engram_cli(&p), Ok(ToolCall::Ingest { text }) if text == "sky"));
    let p = MnemosCliParams { query: Some("q".to_string()), ..params("recall") };
    assert!(matches!(engram_cli(&p), Ok(ToolCall::Recall { limit: 5, .. })));
    assert!(matches!(engram_cli(&params("consolidate")), Ok(ToolCall::Consolidate)));
    assert!(matches!(engram_cli(&params("stats")), Ok(ToolCall::Stats)));
    assert!(engram_cli(&params("forget")).is_err());
    assert_eq!(internal("x").code, McpErrorCode::InternalError);
}

#[test]
fn tool_calls_follow_sequences_and_recall_ids() {
    let p = MnemosCliParams {
        text: Some("ch2".to_string()),
        prev_id: Some(7),
        seq_pos: Some(-1),
        ..params("ingest")
    };
    assert!(matches!(
        engram_cli(&p),
        Ok(ToolCall::IngestSequential { text, prev_id: 7, seq_pos: Some(-1) }) if text == "ch2"
    ));
    let p = MnemosCliParams { follow_seq: Some(3), ..params("recall") };
    assert!(matches!(
        engram_cli(&p),
        Ok(ToolCall::Follow { start: 3, depth: 10, dir }) if dir == "down"
    ));
    let p = MnemosCliParams {
        follow_seq: Some(3),
        seq_depth: Some(2),
        seq_dir: Some("both".to_string()),
        ..params("recall")
    };
    assert!(matches!(
        engram_cli(&p),
        Ok(ToolCall::Follow { start: 3, depth: 2, dir }) if dir == "both"
    ));
    let p = MnemosCliParams { recall_id: Some(9), score: Some(double(1.0)), ..params("reward") };
    assert!(matches!(engram_cli(&p), Ok(ToolCall::RewardWithId { recall_id: 9, .. })));
    let p = MnemosCliParams { recall_id: Some(9), ..params("reward") };
    assert!(matches!(
        engram_cli(&p),
        Err(e) if e.message == "command 'reward' requires 'score'"
    ));
}

#[test]
fn payloads_name_what_they_hold() {
    assert_eq!(help_payload("t").get("help").and_then(|v| v.as_text()), Some("t"));
    assert_eq!(ok_payload().get("ok").and_then(|v| v.as_bool()), Some(true));
    let report =
        ConsolidationReport { pruned: 1, compressed: 2, promoted: 3, contradictions_linked: 4 };
    assert_eq!(
        report_payload(report).get("report").and_then(|r| r.get("pruned")).and_then(|v| v.as_u64()),
        Some(1)
    );
    let stats = MemoryStats { total_engrams: 9, contradictions: 0, concepts: 0, identities: 0 };
    assert_eq!(
        stats_payload(stats).get("stats").and_then(|r| r.get("total_engrams")).and_then(|v| v.as_u64()),
        Some(9)
    );
    assert!(status_payload(stats, Json::Null).get("stats").is_some());
    assert_eq!(
        recall_payload("q", 3, "m", Some(7)).get("recall_id").and_then(|v| v.as_u64()),
        Some(7)
    );
    assert_eq!(
        consolidate_payload(report).get("compressed").and_then(|v| v.as_u64()),
        Some(2)
    );
}

fn recall_params(limit: usize) -> RecallParams {
    RecallParams {
        query: "redwood".to_string(),
        limit,
        follow_seq: None,
        seq_depth: None,
        seq_dir: None,
    }
}

#[test]
fn recall_limit_defaults_to_ten_when_omitted() {
    assert_eq!(default_recall_limit(), 10);
    assert_eq!(mnemos::mcp_tools::DEFAULT_RECALL_LIMIT, 10);
    assert_eq!(recall_params(default_recall_limit()).effective_limit(), 10);
}

#[test]
fn recall_explicit_limit_is_preserved() {
    assert_eq!(recall_params(3).limit, 3);
    assert_eq!(recall_params(3).effective_limit(), 3);
}

#[test]
fn tool_list_mentions_all_tools() {
    let list = tool_list();
    for name in [
        "engram_ingest",
        "engram_recall",
        "engram_reward",
        "engram_consolidate",
        "engram_stats",
        "engram_status",
        "help",
    ] {
        assert!(list.contains(name), "tool list should mention {name}");
    }
}

#[test]
fn per_tool_help_includes_params_and_example() {
    for (name, help_text) in [
        ("engram_ingest", help_ingest()),
        ("engram_recall", help_recall()),
        ("engram_reward", help_reward()),
        ("engram_consolidate", help_consolidate()),
        ("engram_stats", help_stats()),
        ("engram_status", help_status()),
        ("help", help_help()),
    ] {
        assert!(
            help_text.contains("Params") || help_text.contains("Params: none"),
            "{name} help should mention Params"
        );
        assert!(help_text.contains("Example"), "{name} help should mention Example");
    }
}

#[test]
fn help_knows_its_tools() {
    assert_eq!(help(&HelpParams { tool: None }).unwrap(), tool_list());
    assert_eq!(
        help(&HelpParams { tool: Some("engram_stats".to_string()) }).unwrap(),
        help_stats()
    );
    assert_eq!(
        help(&HelpParams { tool: Some("nothing".to_string()) }).unwrap_err().code,
        McpErrorCode::InvalidParams
    );
}

#[test]
fn a_start_makes_a_walk() {
    let walk = RecallParams {
        follow_seq: Some(4),
        seq_depth: Some(2),
        seq_dir: Some("up".to_string()),
        ..recall_params(3)
    };
    assert!(matches!(
        recall_call(&walk),
        RecallCall::Follow { start: 4, depth: 2, dir } if dir == "up"
    ));
    assert!(matches!(recall_call(&recall_params(3)), RecallCall::Search { limit: 3 }));
}

fn claim_candidate(id: u64, charge: f64) -> ContradictionCandidate {
    ContradictionCandidate {
        id,
        episode_raw: format!("memory {id}"),
        emotional_charge: double(charge),
        importance_score: double(0.5),
    }
}

#[test]
fn a_check_judges_what_passes_the_filter() {
    let measures = vec![
        PairMeasure { gap: double(1.2), sim: double(0.9) },
        PairMeasure { gap: double(0.1), sim: double(0.9) },
    ];
    let run = CheckRun::begin(
        double(0.6),
        vec![claim_candidate(1, -0.6), claim_candidate(2, 0.5)],
        &measures,
    );
    assert_eq!(run.request(), Some(0));
    let run = run.advance(true, "opposed");
    assert_eq!(run.request(), None);
    let report = run.report();
    let conflicts = report.get("conflicts").and_then(|v| v.as_array()).expect("conflicts");
    assert_eq!(conflicts.len(), 1);
}
