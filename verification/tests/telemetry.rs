use mnemos::env::Env;
use mnemos::json::Json;
use mnemos::telemetry::{
    truncate, Counter, Event, FoundFile, Telemetry, TelemetrySettings, MAX_EVENTS, MAX_PAGE,
    MAX_SNAPSHOTS,
};
use mnemos::telemetry_report::{deleted_data, event_data, files_data};

fn local() -> Telemetry {
    Telemetry::new(true)
}

#[test]
fn records_ok_and_err() {
    let mut t = local();
    t.record("c", "op", true, "");
    t.record("c", "op", false, "boom");
    let snap = t.snapshot();
    assert_eq!(snap.len(), 2);
    assert!(!snap[0].ok);
    assert_eq!(snap[0].detail, "boom");
}

#[test]
fn disabled_records_nothing() {
    let mut t = Telemetry::new(false);
    t.record("c", "op", false, "x");
    assert!(t.snapshot().is_empty());
    assert_eq!(t.failure_summary().total, 0);
}

#[test]
fn summary_counts_failures() {
    let mut t = local();
    t.record("a", "x", false, "first");
    t.record("a", "x", false, "second");
    t.record("a", "y", true, "");
    let s = t.failure_summary();
    assert_eq!(s.total, 3);
    assert_eq!(s.failures, vec![("a::x".to_string(), 2)]);
    assert_eq!(s.latest_detail, vec![("a::x".to_string(), "second".to_string())]);
}

#[test]
fn ring_evicts_oldest() {
    let mut t = local();
    for i in 0..MAX_EVENTS + 10 {
        t.record("c", "op", true, &i.to_string());
    }
    assert_eq!(t.snapshot().len(), MAX_EVENTS);
    assert_eq!(t.snapshot()[0].detail, (MAX_EVENTS + 9).to_string());
    assert_eq!(t.snapshot()[MAX_EVENTS - 1].detail, "10");
}

#[test]
fn diagnose_ranks_failures_and_captures_recent() {
    let mut t = local();
    // 3 failures of a::x, 1 failure of a::y, 2 ok events.
    t.record("a", "x", false, "first");
    t.record("a", "y", false, "only");
    t.record("a", "x", false, "second");
    t.record("a", "x", false, "third");
    t.record("a", "x", true, "");
    t.record("a", "y", true, "");
    let d = t.diagnose(2);
    assert_eq!(d.total_events, 6);
    assert_eq!(d.total_failures, 4);
    // a::x should be top (3 failures).
    assert_eq!(d.top_failures[0].key, "a::x");
    assert_eq!(d.top_failures[0].count, 3);
    assert_eq!(d.top_failures[0].latest, "third");
    // a::y second (1 failure).
    assert_eq!(d.top_failures[1].key, "a::y");
    assert_eq!(d.top_failures[1].count, 1);
    // Recent 2 failures (newest first: third, second).
    assert_eq!(d.recent_failures.len(), 2);
    assert_eq!(d.recent_failures[0].detail, "third");
    assert_eq!(d.recent_failures[1].detail, "second");
}

#[test]
fn valid_date_accepts_only_ymd() {
    assert!(Telemetry::valid_date("2026-09-05"));
    assert!(!Telemetry::valid_date("../secret"));
    assert!(!Telemetry::valid_date("2026-9-5"));
    assert!(!Telemetry::valid_date("2026-09-05.jsonl"));
    assert!(!Telemetry::valid_date(""));
    assert!(!Telemetry::valid_date("2026/09/05"));
}

#[test]
fn counters_follow_the_events() {
    let mut t = local();
    t.record_with_latency("a", "x", true, "", 30);
    t.record_with_latency("a", "x", false, "", 10);
    t.record_with_meta("b", "y", true, "", 5, "trace", vec![("k".to_string(), "v".to_string())]);
    let counters = t.counters_snapshot();
    assert_eq!(counters.len(), 2);
    assert_eq!(counters[0].0, "a::x");
    assert_eq!(
        counters[0].1,
        Counter {
            total: 2,
            ok: 1,
            err: 1,
            latency_sum_ms: 40,
            latency_min_ms: 10,
            latency_max_ms: 30
        }
    );
    assert_eq!(t.latest(1)[0].trace_id, "trace");
    assert_eq!(t.latest(1)[0].meta, vec![("k".to_string(), "v".to_string())]);
}

#[test]
fn histories_are_bounded() {
    let mut t = local();
    for _ in 0..MAX_SNAPSHOTS + 5 {
        t.record_weights(Json::Null);
        t.record_system_stats(Json::Null);
    }
    assert_eq!(t.weights_history.len(), MAX_SNAPSHOTS);
    assert_eq!(t.system_history.len(), MAX_SNAPSHOTS);
}

#[test]
fn long_details_are_cut_at_a_character() {
    assert_eq!(truncate("short", 10), "short");
    assert_eq!(truncate("abcdef", 3), "abc…[6 bytes total]");
    assert_eq!(truncate("aéé", 2), "a…[5 bytes total]");
}

fn event(op: &str, ok: bool) -> Event {
    Event {
        ts: String::new(),
        crate_name: "c".to_string(),
        op: op.to_string(),
        ok,
        detail: String::new(),
        latency_ms: 0,
        trace_id: String::new(),
        meta: vec![],
    }
}

#[test]
fn pages_come_newest_first() {
    let events = || Some(vec![event("1", true), event("2", false), event("3", true)]);
    let page = |limit: usize, offset: usize, ok_only: Option<bool>| {
        let page = Telemetry::read_file("2026-09-05", events(), limit, offset, ok_only);
        page.expect("a page").into_iter().map(|e| e.op).collect::<Vec<_>>()
    };
    assert_eq!(page(200, 0, None), vec!["3", "2", "1"]);
    assert_eq!(page(1, 1, None), vec!["2"]);
    assert_eq!(page(200, 0, Some(false)), vec!["2"]);
    assert!(page(200, 9, None).is_empty());
    let many = (0..MAX_PAGE + 1).map(|_| event("1", true)).collect();
    let capped = Telemetry::read_file("2026-09-05", Some(many), usize::MAX, 0, None);
    assert_eq!(capped.map(|p| p.len()), Some(MAX_PAGE));
    assert!(Telemetry::read_file("../evil", events(), 200, 0, None).is_none());
    assert!(Telemetry::read_file("2026-09-05", None, 200, 0, None).is_none());
}

#[test]
fn day_files_are_known_by_their_names() {
    assert_eq!(Telemetry::date_of_file("2026-09-05.jsonl"), Some("2026-09-05".to_string()));
    assert_eq!(Telemetry::date_of_file("notes.txt"), None);
    assert_eq!(Telemetry::date_of_file("evil.jsonl"), None);
    assert_eq!(Telemetry::day_file("2026-09-05"), Some("2026-09-05.jsonl".to_string()));
    assert_eq!(Telemetry::day_file("../secret"), None);
    let file = |name: &str| FoundFile { name: name.to_string(), size_bytes: 7, events: 2 };
    let files = Telemetry::telemetry_files(vec![
        file("2026-09-04.jsonl"),
        file("notes.txt"),
        file("2026-10-01.jsonl"),
        file("2025-12-31.jsonl"),
    ]);
    let data = files_data(&files);
    let first = data.as_array().expect("a list")[0].copy();
    assert_eq!(first.get("name").and_then(|v| v.as_text()), Some("2026-10-01.jsonl"));
    assert_eq!(first.get("size_bytes").and_then(|v| v.as_u64()), Some(7));
    assert_eq!(first.get("events").and_then(|v| v.as_u64()), Some(2));
    let dates: Vec<String> = files.into_iter().map(|f| f.date).collect();
    assert_eq!(dates, vec!["2026-10-01", "2026-09-04", "2025-12-31"]);
    let gone = deleted_data(true, "2026-10-01");
    assert_eq!(gone.get("deleted").and_then(|v| v.as_bool()), Some(true));
    assert_eq!(gone.get("date").and_then(|v| v.as_text()), Some("2026-10-01"));
}

#[test]
fn events_are_shown_whole() {
    let mut e = event("recall", false);
    e.meta = vec![("model".to_string(), "m".to_string())];
    e.latency_ms = 12;
    let data = event_data(&e);
    assert_eq!(data.get("op").and_then(|v| v.as_text()), Some("recall"));
    assert_eq!(data.get("ok").and_then(|v| v.as_bool()), Some(false));
    assert_eq!(data.get("latency_ms").and_then(|v| v.as_u64()), Some(12));
    let meta = data.get("meta").expect("fields");
    assert_eq!(meta.get("model").and_then(|v| v.as_text()), Some("m"));
}

#[test]
fn a_snapshot_shows_everything() {
    let mut t = local();
    for i in 0..130 {
        t.record("c", "op", i % 2 == 0, &i.to_string());
    }
    t.record_weights(Json::number(3));
    t.record_system_stats(Json::number(4));
    let all = t.full_snapshot();
    assert_eq!(all.get("total_events").and_then(|v| v.as_u64()), Some(130));
    let events = all.get("events").and_then(|v| v.as_array()).expect("events");
    assert_eq!(events.len(), 100);
    assert_eq!(events[0].get("detail").and_then(|v| v.as_text()), Some("129"));
    let diagnosis = all.get("diagnosis").expect("a diagnosis");
    assert_eq!(diagnosis.get("total_failures").and_then(|v| v.as_u64()), Some(65));
    let recent = diagnosis.get("recent_failures").and_then(|v| v.as_array());
    assert_eq!(recent.map(|r| r.len()), Some(20));
    let top = diagnosis.get("top_failures").and_then(|v| v.as_array()).expect("failures");
    assert_eq!(top[0].get("key").and_then(|v| v.as_text()), Some("c::op"));
    let counter = all.get("counters").and_then(|c| c.get("c::op")).expect("a counter");
    assert_eq!(counter.get("ok").and_then(|v| v.as_u64()), Some(65));
    let weights = all.get("weights_history").and_then(|v| v.as_array()).expect("weights");
    assert_eq!(weights[0].get("weights").and_then(|v| v.as_u64()), Some(3));
    let stats = all.get("system_history").and_then(|v| v.as_array()).expect("stats");
    assert_eq!(stats[0].get("stats").and_then(|v| v.as_u64()), Some(4));
    assert_eq!(t.weights_history_snapshot().len(), 1);
    assert_eq!(t.system_history_snapshot().len(), 1);
}

#[test]
fn settings_come_from_the_environment() {
    let settings = TelemetrySettings::from_env(&Env { vars: vec![] });
    assert!(settings.enabled);
    let off = TelemetrySettings::from_env(&Env {
        vars: vec![("MNEMOS_TELEMETRY".to_string(), "0".to_string())],
    });
    assert!(!off.enabled);
}

#[test]
fn counts_agree_with_the_events() {
    let mut t = local();
    let latencies = [40, 5, 90, 5, 12];
    for (i, ms) in latencies.iter().enumerate() {
        t.record_with_latency("a", "x", i % 2 == 0, &i.to_string(), *ms);
        t.record_with_latency("a", "y", false, &i.to_string(), 7);
    }
    let counters = t.counters_snapshot();
    assert_eq!(counters.iter().map(|(_, c)| c.total).sum::<u64>(), 10);
    assert_eq!(t.failure_summary().total, 10);
    for (_, c) in &counters {
        assert_eq!(c.total, c.ok + c.err);
        assert!(c.latency_min_ms <= c.latency_max_ms);
        assert!(c.total * c.latency_min_ms <= c.latency_sum_ms);
        assert!(c.latency_sum_ms <= c.total * c.latency_max_ms);
    }
    let (_, x) = counters.iter().find(|(key, _)| key == "a::x").unwrap();
    assert_eq!((x.ok, x.err, x.latency_sum_ms), (3, 2, 152));
    assert_eq!((x.latency_min_ms, x.latency_max_ms), (5, 90));
}

#[test]
fn a_diagnosis_lists_every_failure_once() {
    let mut t = local();
    for i in 0..3 {
        t.record("a", "x", false, &i.to_string());
        t.record("b", "z", true, "");
    }
    t.record("a", "y", false, "only");
    let d = t.diagnose(10);
    assert_eq!(d.top_failures.iter().map(|p| p.count).sum::<u64>(), d.total_failures);
    assert_eq!((d.total_failures, d.total_events), (4, 7));
    assert_eq!(d.top_failures.len(), 2);
    assert_eq!((d.top_failures[0].key.as_str(), d.top_failures[0].latest.as_str()), ("a::x", "2"));
    assert_eq!(d.recent_failures.len(), 4);
}
