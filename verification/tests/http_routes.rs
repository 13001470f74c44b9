use mnemos::env::Env;
use mnemos::http_routes::{
    daemon_base_url, is_authorized, mcp_host_from_env, mcp_port_from_env, mcp_token_from_env,
    mirror_command, parse_host, parse_port, parse_query, route_for_path, route_request,
    telemetry_request, Method, Route, ServiceKey, TelemetryRequest, DEFAULT_MCP_HOST,
    DEFAULT_MCP_PORT,
};

fn env(vars: &[(&str, &str)]) -> Env {
    let mut list = Vec::new();
    for (k, v) in vars {
        list.push(((*k).to_string(), (*v).to_string()));
    }
    Env { vars: list }
}

#[test]
fn routes_all_service_paths() {
    assert_eq!(route_for_path("/mcp"), Some(ServiceKey::Protocol));
    assert_eq!(route_for_path("/mcp/tools"), Some(ServiceKey::Tools));
    assert_eq!(route_for_path("/mcp/cli"), Some(ServiceKey::Cli));
}

#[test]
fn route_strips_query_and_fragment() {
    assert_eq!(route_for_path("/mcp?x=1"), Some(ServiceKey::Protocol));
    assert_eq!(route_for_path("/mcp/tools?v=2"), Some(ServiceKey::Tools));
    assert_eq!(route_for_path("/mcp/cli#frag"), Some(ServiceKey::Cli));
}

#[test]
fn route_rejects_unknown_paths() {
    for path in [
        "",
        "/",
        "/mcp/",
        "/mcp/tools/",
        "/mcp/cli/",
        "/mcp/other",
        "/other",
        "/MCP",
    ] {
        assert_eq!(route_for_path(path), None, "path `{path}` must 404");
    }
}

#[test]
fn port_parsing_defaults_and_trims() {
    assert_eq!(parse_port(None), DEFAULT_MCP_PORT);
    assert_eq!(parse_port(Some("")), DEFAULT_MCP_PORT);
    assert_eq!(parse_port(Some("not-a-port")), DEFAULT_MCP_PORT);
    assert_eq!(parse_port(Some("99999")), DEFAULT_MCP_PORT);
    assert_eq!(parse_port(Some("4545")), 4545);
    assert_eq!(parse_port(Some(" 8080 ")), 8080);
}

#[test]
fn host_parsing_defaults_on_blank() {
    assert_eq!(parse_host(None), DEFAULT_MCP_HOST);
    assert_eq!(parse_host(Some("")), DEFAULT_MCP_HOST);
    assert_eq!(parse_host(Some("   ")), DEFAULT_MCP_HOST);
    assert_eq!(parse_host(Some("0.0.0.0")), "0.0.0.0");
}

#[test]
fn unknown_paths_reach_nothing() {
    assert_eq!(route_request("/nowhere", Method::Get, true), Route::NotFound);
}

#[test]
fn requests_go_where_they_belong() {
    assert_eq!(route_request("/health", Method::Get, true), Route::Health);
    assert_eq!(route_request("/health", Method::Post, true), Route::MethodNotAllowed);
    assert_eq!(route_request("/cli", Method::Post, true), Route::CliRpc);
    assert_eq!(route_request("/cli", Method::Get, true), Route::MethodNotAllowed);
    assert_eq!(route_request("/recall?query=x", Method::Get, true), Route::Mirror);
    assert_eq!(route_request("/tools", Method::Get, true), Route::Catalog);
    assert_eq!(route_request("/telemetry/files", Method::Get, true), Route::Telemetry);
    assert_eq!(
        route_request("/mcp/tools", Method::Post, true),
        Route::Service(ServiceKey::Tools)
    );
    assert_eq!(route_request("/health", Method::Get, false), Route::Unauthorized);
    assert_eq!(mirror_command("/train-reranker"), Some("train-reranker"));
    assert_eq!(mirror_command("/serve"), None);
}

#[test]
fn tokens_guard_requests() {
    assert!(is_authorized(None, None));
    assert!(is_authorized(Some("Bearer abc"), Some("abc")));
    assert!(!is_authorized(Some("Bearer abd"), Some("abc")));
    assert!(!is_authorized(Some("abc"), Some("abc")));
    assert!(!is_authorized(None, Some("abc")));
}

#[test]
fn queries_split_into_pairs() {
    assert_eq!(
        parse_query(Some("a=1&b=x=y&c")),
        vec![
            ("a".to_string(), "1".to_string()),
            ("b".to_string(), "x=y".to_string()),
            ("c".to_string(), String::new()),
        ]
    );
    assert_eq!(parse_query(None), vec![(String::new(), String::new())]);
}

#[test]
fn telemetry_paths_are_told_apart() {
    let ask = |path: &str, method: Method, query: &str| {
        telemetry_request(path, method, parse_query(Some(query)))
    };
    assert!(matches!(ask("/telemetry", Method::Get, ""), TelemetryRequest::Snapshot));
    assert!(matches!(ask("/telemetry/diagnose", Method::Get, ""), TelemetryRequest::Diagnose));
    assert!(matches!(ask("/telemetry/counters", Method::Get, ""), TelemetryRequest::Counters));
    assert!(matches!(ask("/telemetry/events", Method::Get, ""), TelemetryRequest::Events));
    assert!(matches!(ask("/telemetry/weights", Method::Get, ""), TelemetryRequest::Weights));
    assert!(matches!(ask("/telemetry/system", Method::Get, ""), TelemetryRequest::System));
    assert!(matches!(ask("/telemetry/files", Method::Get, ""), TelemetryRequest::Files));
    assert!(matches!(ask("/telemetry/else", Method::Get, ""), TelemetryRequest::NotFound));
    assert!(matches!(ask("/telemetry", Method::Post, ""), TelemetryRequest::MethodNotAllowed));
    match ask("/telemetry/file", Method::Get, "date=2026-09-05&limit=x&offset=3&ok=1") {
        TelemetryRequest::File { date, limit, offset, ok_only } => {
            assert_eq!(date, "2026-09-05");
            assert_eq!(limit, 200);
            assert_eq!(offset, 3);
            assert_eq!(ok_only, Some(true));
        }
        other => panic!("{other:?}"),
    }
    match ask("/telemetry/file", Method::Delete, "date=2026-09-05") {
        TelemetryRequest::DeleteFile { date } => assert_eq!(date, "2026-09-05"),
        other => panic!("{other:?}"),
    }
}

#[test]
fn the_environment_sets_the_address() {
    let none = env(&[]);
    assert_eq!(mcp_port_from_env(&none), 4545);
    assert_eq!(mcp_host_from_env(&none), "127.0.0.1");
    assert_eq!(mcp_token_from_env(&none), None);
    let set = env(&[("MNEMOS_MCP_PORT", "8080"), ("MNEMOS_MCP_TOKEN", "t")]);
    assert_eq!(mcp_port_from_env(&set), 8080);
    assert_eq!(mcp_token_from_env(&set), Some("t".to_string()));
    assert!(daemon_base_url(&none).starts_with("http://"));
}
