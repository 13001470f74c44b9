use mnemos::config::LlmConfig;
use mnemos::double::Double;
use mnemos::embedding::{
    extract_embedding, extract_embeddings, refused, LocalEmbeddingProvider,
    OpenAiEmbeddingProvider, LOCAL_MODEL,
};
use mnemos::error::MnemosError;
use mnemos::json::{read_json, Json, JsonNumber};
use mnemos::types::{EMBEDDING_DIM, LOCAL_EMBEDDING_DIM};

fn json(text: &str) -> Json {
    read_json(text).expect("valid JSON")
}

fn single(n: &JsonNumber) -> f32 {
    match n {
        JsonNumber::Float(Double { bits }) => f64::from_bits(*bits) as f32,
        JsonNumber::Unsigned(n) => *n as f32,
        JsonNumber::Signed(n) => *n as f32,
    }
}

fn singles(list: &[JsonNumber]) -> Vec<f32> {
    list.iter().map(single).collect()
}

#[test]
fn lib_url_join_has_no_trailing_slash_duplication() {
    for base in [
        "https://api.openai.com/v1",
        "https://api.openai.com/v1/",
        "http://x///",
    ] {
        let p = OpenAiEmbeddingProvider::new("emb", base, "k");
        assert!(!p.base_url().ends_with('/'), "{base}");
        assert!(p.embeddings_url().ends_with("/embeddings"));
        assert!(!p.embeddings_url().contains("//embeddings"));
    }
}

#[test]
fn from_config_maps_embedding_model_field() {
    let cfg = LlmConfig {
        api_key: "k".into(),
        base_url: "http://localhost:11434/v1/".into(),
        model: "llama".into(),
        embedding_model: "emb".into(),
        embedding_base_url: "http://localhost:11434/v1/".into(),
        embedding_dim: 1536,
    };
    let p = OpenAiEmbeddingProvider::from_config(&cfg);
    assert_eq!(p.model(), "emb");
    assert_eq!(p.base_url(), "http://localhost:11434/v1");
}

#[test]
fn data_shape_parses_to_vec() {
    let body = json(
        r#"{
            "object": "list",
            "data": [
                { "object": "embedding", "index": 0, "embedding": [0.1, 0.2, 0.3] },
                { "object": "embedding", "index": 1, "embedding": [0.4, 0.5] }
            ],
            "model": "text-embedding-3-small"
        }"#,
    );
    let one = extract_embedding(&body, "").unwrap();
    assert_eq!(singles(&one), vec![0.1_f32, 0.2, 0.3]);
    let batch = extract_embeddings(&body, "").unwrap();
    assert_eq!(batch.len(), 2);
    assert_eq!(singles(&batch[1]), vec![0.4_f32, 0.5]);
}

#[test]
fn empty_data_yields_err() {
    let body = json(r#"{ "object": "list", "data": [] }"#);
    assert!(extract_embedding(&body, "").is_err());
    assert!(extract_embeddings(&body, "").is_err());
    let missing = json(r#"{ "id": "x" }"#);
    assert!(extract_embedding(&missing, "").is_err());
    assert!(extract_embeddings(&missing, "").is_err());
}

#[test]
fn local_dim_constant_is_384_not_1536() {
    assert_eq!(LOCAL_EMBEDDING_DIM, 384);
    assert_ne!(LOCAL_EMBEDDING_DIM, EMBEDDING_DIM);
}

#[test]
fn dimension_lookup_needs_no_download() {
    assert_eq!(LocalEmbeddingProvider::dimension_of("AllMiniLML6V2").expect("known model"), 384);
    assert_eq!(LocalEmbeddingProvider::dimension_of("BGESmallENV15").expect("known model"), 384);
}

#[test]
fn all_supported_models_have_nonzero_dim() {
    for info in fastembed::TextEmbedding::list_supported_models() {
        assert!(info.dim > 0, "model {:?} has zero dim", info.model);
        let name = format!("{:?}", info.model);
        assert_eq!(LocalEmbeddingProvider::dimension_of(&name).expect("known model"), info.dim);
    }
}

#[test]
fn unknown_models_are_errors_of_embedding() {
    assert!(matches!(
        LocalEmbeddingProvider::dimension_of("no-such-model"),
        Err(MnemosError::Embedding(_))
    ));
    let local = LocalEmbeddingProvider::with_model(LOCAL_MODEL).expect("known model");
    assert_eq!(local.dimension(), 384);
    assert_eq!(LocalEmbeddingProvider::dimension_from(Ok(7)).unwrap(), 7);
}

#[test]
fn bodies_carry_the_model() {
    let p = OpenAiEmbeddingProvider::new("emb", "http://x/", "");
    let body = p.text_body("hello");
    assert_eq!(body.get("model").and_then(|v| v.as_text()), Some("emb"));
    assert_eq!(body.get("input").and_then(|v| v.as_text()), Some("hello"));
    let batch = p.batch_body(&vec!["a".to_string(), "b".to_string()]);
    assert_eq!(batch.get("input").and_then(|v| v.as_array()).map(|v| v.len()), Some(2));
    assert_eq!(p.bearer(), None);
    assert_eq!(p.embeddings_url(), "http://x/embeddings");
    assert!(matches!(refused("500", "oops"), MnemosError::Embedding(_)));
}
