use mnemos::double::Double;
use mnemos::http_api::{
    chain_data, dispatch_cli_rpc, error_envelope, execute_cli_value, failure_status, get_bool, get_f64,
    get_f64_vec, get_i64, get_str, get_u64, handle_mirror, health_answer, ingest_data, mirror_answer, mirror_help,
    ok_envelope, query_to_json, recall_data, report_data, reward_data, setup_data, stats_data,
    status_data, tools_catalog, CliCall, FloatArg, MirrorPlan,
};
use mnemos::http_routes::Method;
use mnemos::json::{read_json, Json, JsonNumber};
use mnemos::types::{ConsolidationReport, MemoryStats, ResonanceResult};

fn json(text: &str) -> Json {
    read_json(text).expect("valid JSON")
}

fn result(score: f64) -> ResonanceResult {
    let double = |x: f64| Double { bits: x.to_bits() };
    ResonanceResult {
        engram_id: 8,
        resonance_score: double(score),
        episode_raw: "x".to_string(),
        emotional_charge: double(-0.5),
        importance_score: double(0.5),
        identity_alignment: double(1.0),
        semantic_sim: double(0.9),
        recency_weight: double(1.0),
        reward_score: double(0.0),
        reward_factor: double(1.0),
    }
}

fn call(text: &str) -> Result<CliCall, String> {
    execute_cli_value(&json(text)).map_err(|(status, message)| {
        assert_eq!(status, 400);
        message
    })
}

#[test]
fn fields_are_read_loosely() {
    let v = json(r#"{"s": "x", "n": 7, "t": " 8 ", "m": -1, "b": "Yes", "c": true, "f": "0.5"}"#);
    assert_eq!(get_str(&v, "s"), Some("x"));
    assert_eq!(get_str(&v, "n"), None);
    assert_eq!(get_u64(&v, "n"), Some(7));
    assert_eq!(get_u64(&v, "t"), Some(8));
    assert_eq!(get_u64(&v, "m"), None);
    assert_eq!(get_bool(&v, "b"), Some(true));
    assert_eq!(get_bool(&v, "c"), Some(true));
    assert_eq!(get_bool(&v, "n"), None);
    assert_eq!(get_f64(&v, "f"), Some(FloatArg::Text("0.5".to_string())));
    assert_eq!(get_f64(&v, "n"), Some(FloatArg::Number(JsonNumber::Unsigned(7))));
    assert_eq!(get_f64(&v, "s"), None);
}

#[test]
fn positions_are_signed() {
    let v = json(r#"{"a": -2, "b": " -3 ", "c": 4, "d": 18446744073709551615, "e": "x", "f": 0.5}"#);
    assert_eq!(get_i64(&v, "a"), Some(-2));
    assert_eq!(get_i64(&v, "b"), Some(-3));
    assert_eq!(get_i64(&v, "c"), Some(4));
    assert_eq!(get_i64(&v, "d"), Some(-1));
    assert_eq!(get_i64(&v, "e"), None);
    assert_eq!(get_i64(&v, "f"), None);
    assert_eq!(
        call(r#"{"command": "ingest", "text": "sky", "prev_id": 4, "seq_pos": -1}"#),
        Ok(CliCall::IngestSequential { text: "sky".to_string(), prev_id: 4, seq_pos: Some(-1) })
    );
}

#[test]
fn lists_of_doubles_skip_what_is_none() {
    let v = json(r#"{"a": [1, "2", "x", null], "b": "1, 2,,y"}"#);
    assert_eq!(
        get_f64_vec(&v, "a"),
        vec![FloatArg::Number(JsonNumber::Unsigned(1)), FloatArg::Text("2".to_string())]
    );
    assert_eq!(
        get_f64_vec(&v, "b"),
        vec![FloatArg::Text("1".to_string()), FloatArg::Text("2".to_string())]
    );
    assert!(get_f64_vec(&v, "c").is_empty());
}

#[test]
fn commands_ask_for_calls() {
    assert_eq!(
        call(r#"{"command": "ingest", "text": "sky"}"#),
        Ok(CliCall::Ingest { text: "sky".to_string() })
    );
    assert_eq!(
        call(r#"{"command": "ingest", "text": "sky", "seq": "4", "pos": 2}"#),
        Ok(CliCall::IngestSequential { text: "sky".to_string(), prev_id: 4, seq_pos: Some(2) })
    );
    assert_eq!(
        call(r#"{"command": "recall", "query": "q"}"#),
        Ok(CliCall::Recall { query: "q".to_string(), limit: 5 })
    );
    assert_eq!(
        call(r#"{"command": "recall", "follow_seq": 9, "depth": 3, "dir": "up"}"#),
        Ok(CliCall::FollowSequence { start: 9, depth: 3, dir: "up".to_string() })
    );
    assert_eq!(
        call(r#"{"command": "reward", "score": 1, "recall_id": 3}"#),
        Ok(CliCall::RewardWithId {
            recall_id: 3,
            score: FloatArg::Number(JsonNumber::Unsigned(1))
        })
    );
    assert_eq!(
        call(r#"{"command": "consolidate", "aggressive": true}"#),
        Ok(CliCall::Consolidate { aggressive: true })
    );
    assert_eq!(call(r#"{"command": "stats"}"#), Ok(CliCall::Stats));
    assert_eq!(call(r#"{"command": "status"}"#), Ok(CliCall::Status));
    assert_eq!(call(r#"{"command": "setup"}"#), Ok(CliCall::Setup));
    assert_eq!(call(r#"{"command": "train-reranker"}"#), Ok(CliCall::TrainReranker));
}

#[test]
fn refusals_say_why() {
    assert_eq!(call(r#"{"command": "ingest"}"#), Err("ingest needs {text}".to_string()));
    assert_eq!(
        call(r#"{"command": "ingest", "text": " "}"#),
        Err("ingest needs text: engram ingest <text...>".to_string())
    );
    assert_eq!(
        call(r#"{"command": "recall", "query": ""}"#),
        Err("recall needs a query: engram recall <query...> [--limit N]".to_string())
    );
    assert_eq!(
        call(r#"{"command": "recall", "follow_seq": 1, "dir": "left"}"#),
        Err("--dir must be up|down|both".to_string())
    );
    assert_eq!(
        call(r#"{"command": "reward"}"#),
        Err("reward needs a score: engram reward <score> [attributions csv]".to_string())
    );
    assert_eq!(
        call(r#"{"command": "x\"y"}"#),
        Err("unknown command \"x\\\"y\" (ingest|recall|reward|consolidate|setup|stats|status|train-reranker)".to_string())
    );
}

#[test]
fn bodies_are_parsed() {
    assert_eq!(dispatch_cli_rpc(br#"{"command": "stats"}"#), Ok(CliCall::Stats));
    assert!(dispatch_cli_rpc(b"{").is_err());
}

#[test]
fn the_body_counts_before_the_query_and_the_path_before_both() {
    match handle_mirror(
        "recall",
        Method::Post,
        Some("query=from-query&limit=3"),
        br#"{"query": "from-body", "command": "setup"}"#,
    ) {
        MirrorPlan::Call(CliCall::Recall { query, limit }) => {
            assert_eq!(query, "from-body");
            assert_eq!(limit, 3);
        }
        other => panic!("{other:?}"),
    }
    match handle_mirror("recall", Method::Get, Some("query=q"), br#"{"query": "body"}"#) {
        MirrorPlan::Call(CliCall::Recall { query, limit: 5 }) => assert_eq!(query, "q"),
        other => panic!("{other:?}"),
    }
}

#[test]
fn a_query_and_a_body_ask_the_same() {
    let asked = [
        ("ingest", "text=note&prev_id=4&seq_pos=-1", r#"{"text": "note", "prev_id": "4", "seq_pos": "-1"}"#),
        ("reward", "score=0.5&recall_id=7", r#"{"score": "0.5", "recall_id": "7"}"#),
        ("consolidate", "aggressive=true", r#"{"aggressive": "true"}"#),
    ];
    for (command, query, body) in asked {
        let got = handle_mirror(command, Method::Get, Some(query), b"");
        let posted = handle_mirror(command, Method::Post, None, body.as_bytes());
        match (got, posted) {
            (MirrorPlan::Call(a), MirrorPlan::Call(b)) => assert_eq!(a, b),
            other => panic!("{other:?}"),
        }
    }
}

#[test]
fn mirrors_refuse_what_they_cannot_read() {
    assert!(matches!(
        handle_mirror("recall", Method::Delete, None, b""),
        MirrorPlan::Refuse { status: 405, .. }
    ));
    match handle_mirror("recall", Method::Post, None, b"[]") {
        MirrorPlan::Refuse { status, message } => {
            assert_eq!(status, 400);
            assert_eq!(message, "body must be a JSON object");
        }
        other => panic!("{other:?}"),
    }
    match handle_mirror("recall", Method::Post, None, b"{") {
        MirrorPlan::Refuse { status, message } => {
            assert_eq!(status, 400);
            assert!(message.starts_with("bad json: "));
        }
        other => panic!("{other:?}"),
    }
    assert!(matches!(handle_mirror("help", Method::Get, None, b""), MirrorPlan::Help));
    assert!(matches!(
        handle_mirror("ingest", Method::Get, None, b""),
        MirrorPlan::Reject { status: 400, message } if message == "ingest needs {text}"
    ));
}

#[test]
fn queries_are_decoded() {
    match handle_mirror("recall", Method::Get, Some("query=blue%20sky&limit=5"), b"") {
        MirrorPlan::Call(CliCall::Recall { query, limit: 5 }) => assert_eq!(query, "blue sky"),
        other => panic!("{other:?}"),
    }
    let fields = query_to_json(Some("a%62=%C3%A9+1&c=100%&d=%FF&e=%4")).done();
    assert_eq!(fields.get("ab").and_then(|v| v.as_text()), Some("é+1"));
    assert_eq!(fields.get("c").and_then(|v| v.as_text()), Some("100%"));
    assert_eq!(fields.get("d").and_then(|v| v.as_text()), Some("%FF"));
    assert_eq!(fields.get("e").and_then(|v| v.as_text()), Some("%4"));
}

#[test]
fn failures_have_a_status() {
    assert_eq!(failure_status(&CliCall::TrainReranker), 400);
    assert_eq!(failure_status(&CliCall::Stats), 500);
    let (status, answer) = mirror_answer(500, Ok(Json::number(1)));
    assert_eq!(status, 200);
    assert_eq!(answer.get("data").and_then(|v| v.as_u64()), Some(1));
    let (status, answer) = mirror_answer(500, Err("no".to_string()));
    assert_eq!(status, 500);
    assert_eq!(answer.get("ok").and_then(|v| v.as_bool()), Some(false));
    assert_eq!(answer.get("error").and_then(|v| v.as_text()), Some("no"));
}

#[test]
fn answers_are_wrapped() {
    let ok = ok_envelope(Json::number(3));
    assert_eq!(ok.get("ok").and_then(|v| v.as_bool()), Some(true));
    assert_eq!(ok.get("data").and_then(|v| v.as_u64()), Some(3));
    let failed = error_envelope("no");
    assert_eq!(failed.get("ok").and_then(|v| v.as_bool()), Some(false));
    assert_eq!(failed.get("error").and_then(|v| v.as_text()), Some("no"));
    let up = health_answer();
    assert_eq!(
        up.get("data").and_then(|d| d.get("status")).and_then(|v| v.as_text()),
        Some("up")
    );
}

#[test]
fn data_of_answers() {
    assert_eq!(ingest_data(4).get("engram_id").and_then(|v| v.as_u64()), Some(4));
    let chain = chain_data(&vec![1, 2], 1, 5, "down");
    assert_eq!(chain.get("sequential_chain").and_then(|v| v.as_array()).map(|v| v.len()), Some(2));
    assert_eq!(chain.get("start_id").and_then(|v| v.as_u64()), Some(1));
    assert_eq!(chain.get("depth").and_then(|v| v.as_u64()), Some(5));
    let nothing = recall_data(&vec![], Some(3));
    assert_eq!(nothing.get("message").and_then(|v| v.as_text()), Some("I don't know"));
    assert_eq!(nothing.get("recall_id").and_then(|v| v.as_u64()), None);
    let some = recall_data(&vec![result(f64::NAN)], Some(3));
    let shown = some.get("results").and_then(|v| v.as_array()).map(|v| v[0].copy());
    let shown = shown.expect("one result");
    assert_eq!(shown.get("engram_id").and_then(|v| v.as_u64()), Some(8));
    assert!(matches!(
        shown.get("semantic_sim"),
        Some(Json::Number(JsonNumber::Float(d))) if f64::from_bits(d.bits) == 0.9
    ));
    assert!(matches!(shown.get("resonance_score"), Some(Json::Null)));
    assert_eq!(some.get("recall_id").and_then(|v| v.as_u64()), Some(3));
    assert!(some.get("message").is_none());
    assert_eq!(reward_data().get("applied").and_then(|v| v.as_bool()), Some(true));
    let report = report_data(ConsolidationReport {
        pruned: 1,
        compressed: 2,
        promoted: 3,
        contradictions_linked: 4,
    });
    assert_eq!(report.get("contradictions_linked").and_then(|v| v.as_u64()), Some(4));
    let stats = MemoryStats { total_engrams: 1, contradictions: 2, concepts: 3, identities: 4 };
    assert_eq!(stats_data(stats).get("concepts").and_then(|v| v.as_u64()), Some(3));
    let status = status_data(stats, Json::Null, Json::Bool(true), Json::Null);
    assert_eq!(status.get("embedding").and_then(|v| v.as_bool()), Some(true));
    assert!(status.get("storage").and_then(|v| v.get("stats")).is_some());
    assert_eq!(setup_data(384, "done").get("dimension").and_then(|v| v.as_u64()), Some(384));
}

#[test]
fn documents_are_json() {
    assert!(read_json(tools_catalog()).expect("valid JSON").as_array().is_some());
    let help = json(mirror_help());
    assert!(help.get("commands").and_then(|c| c.get("recall")).is_some());
    let fields = query_to_json(Some("a=1&a=2")).done();
    assert_eq!(fields.get("a").and_then(|v| v.as_text()), Some("2"));
}
