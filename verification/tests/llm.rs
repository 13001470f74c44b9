use mnemos::config::LlmConfig;
use mnemos::double::Double;
use mnemos::error::MnemosError;
use mnemos::json::{read_json, Json, JsonNumber};
use mnemos::llm::{
    backoff, client_error, elapsed_ms, extract_content, extract_json, parse_json_reply,
    parse_max_retries, system_messages, user_messages, AnthropicProvider, OllamaProvider,
    OpenAiCompatibleProvider, SendEvent, SendRun, SendStep, StructuredRun, StructuredStep,
    ANTHROPIC_DEFAULT_BASE_URL, OLLAMA_DEFAULT_BASE_URL,
};

fn json(text: &str) -> Json {
    read_json(text).expect("valid JSON")
}

fn config(api_key: &str, base_url: &str, model: &str, embedding_base_url: &str) -> LlmConfig {
    LlmConfig {
        api_key: api_key.into(),
        base_url: base_url.into(),
        model: model.into(),
        embedding_model: "emb".into(),
        embedding_base_url: embedding_base_url.into(),
        embedding_dim: 1536,
    }
}

#[test]
fn new_uses_anthropic_base_url() {
    let p = AnthropicProvider::new("sk-ant-test", "sonnet-4-5");
    assert_eq!(p.model(), "sonnet-4-5");
    assert_eq!(p.base_url(), ANTHROPIC_DEFAULT_BASE_URL);
    assert_eq!(p.base_url(), "https://api.anthropic.com/v1");
}

#[test]
fn from_config_maps_model_and_ignores_base_url() {
    let cfg = config(
        "sk-ant-test",
        "https://api.openai.com/v1",
        "sonnet-4-5",
        "https://api.openai.com/v1",
    );
    let p = AnthropicProvider::from_config(&cfg);
    assert_eq!(p.model(), "sonnet-4-5");
    assert_eq!(p.base_url(), ANTHROPIC_DEFAULT_BASE_URL);
}

#[test]
fn new_uses_default_base_url() {
    let p = OllamaProvider::new("llama3.1");
    assert_eq!(p.model(), "llama3.1");
    assert_eq!(p.base_url(), OLLAMA_DEFAULT_BASE_URL);
}

#[test]
fn with_base_maps_model_and_trims_slash() {
    let p = OllamaProvider::with_base("qwen2.5", "http://ollama.lan:11434/v1/");
    assert_eq!(p.model(), "qwen2.5");
    assert_eq!(p.base_url(), "http://ollama.lan:11434/v1");
}

#[test]
fn from_config_uses_model_and_ignores_base_url() {
    let cfg = config(
        "sk-test",
        "https://api.openai.com/v1",
        "llama3.1",
        "https://api.openai.com/v1",
    );
    let p = OllamaProvider::from_config(&cfg);
    assert_eq!(p.model(), "llama3.1");
    assert_eq!(p.base_url(), OLLAMA_DEFAULT_BASE_URL);
}

#[test]
fn url_join_has_no_trailing_slash_duplication() {
    for base in ["https://api.openai.com/v1", "https://api.openai.com/v1/", "http://x///"] {
        let p = OpenAiCompatibleProvider::new("m", base, "k");
        assert!(!p.base_url().ends_with('/'), "{base}");
        assert!(p.chat_url().ends_with("/chat/completions"));
        assert!(!p.chat_url().contains("//chat"));
    }
}

#[test]
fn from_config_maps_fields() {
    let cfg = config("k", "http://localhost:11434/v1/", "llama", "http://localhost:11434/v1");
    let p = OpenAiCompatibleProvider::from_config(&cfg);
    assert_eq!(p.model(), "llama");
    assert_eq!(p.base_url(), "http://localhost:11434/v1");
}

#[test]
fn empty_choices_yields_err() {
    assert!(extract_content(&json(r#"{ "choices": [] }"#), "").is_err());
    assert!(extract_content(&json(r#"{ "id": "x" }"#), "").is_err());
}

#[test]
fn backoff_doubles_and_caps() {
    assert_eq!(backoff(0), 100);
    assert_eq!(backoff(1), 200);
    assert_eq!(backoff(2), 400);
    assert_eq!(backoff(3), 800);
    assert_eq!(backoff(4), 1600);
    // Capped at 2000ms.
    assert_eq!(backoff(10), 2000);
    assert_eq!(backoff(usize::MAX), 2000);
}

#[test]
fn max_retries_defaults_to_three() {
    assert_eq!(parse_max_retries(None), 3);
    assert_eq!(parse_max_retries(Some("")), 3);
    assert_eq!(parse_max_retries(Some("not-a-number")), 3);
}

#[test]
fn max_retries_reads_env() {
    assert_eq!(parse_max_retries(Some("5")), 5);
    assert_eq!(parse_max_retries(Some(" 2 ")), 2);
    assert_eq!(parse_max_retries(Some("0")), 0);
}

#[test]
fn parses_structured_output() {
    let run = StructuredRun::begin("how do you feel?", 1, "");
    assert_eq!(run.current, "how do you feel?");
    let reply = r#"{"name":"x","confidence":0.5}"#;
    let mood = json(extract_json(reply));
    assert_eq!(mood.get("name").and_then(|v| v.as_text()), Some("x"));
    assert_eq!(
        mood.get("confidence").and_then(|v| v.as_number()),
        Some(JsonNumber::Float(Double { bits: 0.5f64.to_bits() }))
    );
}

#[test]
fn content_is_the_first_choice() {
    let body = json(r#"{"choices": [{"message": {"content": "hi"}}, {"message": {"content": "no"}}]}"#);
    assert_eq!(extract_content(&body, "").unwrap(), "hi");
    let body = json(r#"{"choices": {"0": {"message": {"content": "hi"}}}}"#);
    assert_eq!(extract_content(&body, "").unwrap(), "hi");
    let body = json(r#"{"choices": {"1": {"message": {"content": "no"}}}}"#);
    assert!(extract_content(&body, "").is_err());
}

#[test]
fn bodies_carry_model_and_messages() {
    let p = OpenAiCompatibleProvider::new("m", "http://x", "");
    let body = p.chat_body(user_messages("hello"), true);
    assert_eq!(body.get("model").and_then(|v| v.as_text()), Some("m"));
    let messages = body.get("messages").and_then(|v| v.as_array()).expect("messages");
    assert_eq!(messages.len(), 1);
    assert_eq!(messages[0].get("role").and_then(|v| v.as_text()), Some("user"));
    assert_eq!(messages[0].get("content").and_then(|v| v.as_text()), Some("hello"));
    assert!(body.get("response_format").is_some());
    assert!(p.chat_body(user_messages("hello"), false).get("response_format").is_none());
    assert_eq!(system_messages("be brief", "hi").len(), 2);
    assert_eq!(p.bearer(), None);
    assert_eq!(OpenAiCompatibleProvider::new("m", "http://x", "k").bearer(), Some("k"));
}

fn status(code: u16, shown: &str) -> SendEvent {
    SendEvent::Status { code, shown: shown.to_string() }
}

#[test]
fn sending_is_retried_as_often_as_allowed() {
    let run = SendRun::begin(1);
    let run = match run.step(status(503, "503 Service Unavailable")) {
        SendStep::Retry { wait_ms, run } => {
            assert_eq!(wait_ms, 100);
            run
        }
        other => panic!("{other:?}"),
    };
    assert_eq!(run.attempt, 1);
    assert!(matches!(
        run.step(status(503, "503 Service Unavailable")),
        SendStep::Fail { error: MnemosError::Llm(_) }
    ));
}

#[test]
fn client_errors_are_not_retried() {
    assert!(matches!(SendRun::begin(3).step(status(200, "200 OK")), SendStep::ReadContent));
    assert!(matches!(
        SendRun::begin(3).step(status(404, "404 Not Found")),
        SendStep::ReadError
    ));
    assert!(matches!(client_error("404 Not Found", "gone"), MnemosError::Llm(_)));
    assert!(matches!(
        SendRun::begin(3).step(SendEvent::Transport { message: "x".to_string(), retriable: false }),
        SendStep::Fail { .. }
    ));
    assert!(matches!(
        SendRun::begin(3).step(SendEvent::Transport { message: "x".to_string(), retriable: true }),
        SendStep::Retry { wait_ms: 100, .. }
    ));
    assert!(matches!(SendRun::begin(3).step(SendEvent::NotCloneable), SendStep::Fail { .. }));
}

#[test]
fn structured_tries_end() {
    let run = StructuredRun::begin("q", 2, "mend it");
    let run = match run.unparsed("eof", "{") {
        StructuredStep::Ask { run } => run,
        other => panic!("{other:?}"),
    };
    assert!(run.current.contains("mend it"));
    assert!(matches!(run.unparsed("eof", "{"), StructuredStep::Fail { .. }));
}

#[test]
fn json_is_cut_out_of_prose() {
    assert_eq!(extract_json("a [1] b"), "[1]");
    assert_eq!(extract_json("a {\"k\": [1]} b"), "{\"k\": [1]}");
    assert_eq!(extract_json("none"), "none");
    assert_eq!(extract_json(r#"so {"a":"] ["} ok"#), r#"{"a":"] ["}"#);
    assert_eq!(extract_json("] ["), "] [");
    assert!(parse_json_reply("{\"a\": 1}").is_ok());
    assert!(parse_json_reply("nothing").is_err());
}

#[test]
fn elapsed_time_is_held_at_the_largest() {
    assert_eq!(elapsed_ms(12), 12);
    assert_eq!(elapsed_ms(u128::MAX), u64::MAX);
}
