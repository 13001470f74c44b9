use mnemos::config::{embedding_dim_from_env, LlmConfig, MnemosConfig, StorageBackend, StorageConfig};
use mnemos::env::Env;

fn env(pairs: &[(&str, &str)]) -> Env {
    Env { vars: pairs.iter().map(|(k, v)| (k.to_string(), v.to_string())).collect() }
}

fn disk_cfg() -> StorageConfig {
    StorageConfig {
        url: "http://localhost:6969".to_string(),
        data_root: "./data/helix".to_string(),
        database: "mnemos".to_string(),
        backend: StorageBackend::EmbeddedDisk,
        object_bucket: String::new(),
        object_region: "us-east-1".to_string(),
        object_endpoint: None,
        object_allow_http: false,
    }
}

#[test]
fn backend_defaults_to_disk() {
    assert_eq!(StorageBackend::default(), StorageBackend::EmbeddedDisk);
}

#[test]
fn backend_parses_aliases() {
    assert_eq!(StorageBackend::parse("disk"), StorageBackend::EmbeddedDisk);
    assert_eq!(StorageBackend::parse("embedded"), StorageBackend::EmbeddedDisk);
    assert_eq!(StorageBackend::parse("HTTP"), StorageBackend::Http);
    assert_eq!(StorageBackend::parse("memory"), StorageBackend::EmbeddedMemory);
    assert_eq!(StorageBackend::parse("embedded-memory"), StorageBackend::EmbeddedMemory);
    assert_eq!(StorageBackend::parse("s3"), StorageBackend::ObjectStorage);
    assert_eq!(StorageBackend::parse("object-storage"), StorageBackend::ObjectStorage);
    assert_eq!(StorageBackend::parse("nonsense"), StorageBackend::EmbeddedDisk);
}

#[test]
fn backend_names_ignore_case_and_separators() {
    assert_eq!(StorageBackend::parse("In_Memory"), StorageBackend::EmbeddedMemory);
    assert_eq!(StorageBackend::parse("OBJECT/store"), StorageBackend::ObjectStorage);
    assert_eq!(StorageBackend::parse("ser-ver"), StorageBackend::Http);
    assert_eq!(StorageBackend::parse(""), StorageBackend::EmbeddedDisk);
    assert_eq!(StorageBackend::parse(" memory"), StorageBackend::EmbeddedDisk);
}

#[test]
fn disk_without_root_falls_back_to_memory() {
    let cfg = StorageConfig { data_root: String::new(), ..disk_cfg() };
    assert_eq!(cfg.effective_backend(), StorageBackend::EmbeddedMemory);
}

#[test]
fn object_without_bucket_falls_back_to_disk() {
    let cfg = StorageConfig { backend: StorageBackend::ObjectStorage, ..disk_cfg() };
    assert_eq!(cfg.effective_backend(), StorageBackend::EmbeddedDisk);
}

#[test]
fn object_without_bucket_and_root_falls_back_to_memory() {
    let cfg = StorageConfig {
        backend: StorageBackend::ObjectStorage,
        object_bucket: " \t".to_string(),
        data_root: "\u{3000}".to_string(),
        ..disk_cfg()
    };
    assert_eq!(cfg.effective_backend(), StorageBackend::EmbeddedMemory);
}

#[test]
fn object_with_bucket_stays() {
    let cfg = StorageConfig {
        backend: StorageBackend::ObjectStorage,
        object_bucket: "helix-production".to_string(),
        ..disk_cfg()
    };
    assert_eq!(cfg.effective_backend(), StorageBackend::ObjectStorage);
}

#[test]
fn http_never_falls_back() {
    let cfg = StorageConfig { backend: StorageBackend::Http, ..disk_cfg() };
    assert_eq!(cfg.effective_backend(), StorageBackend::Http);
}

#[test]
fn storage_settings_come_from_the_environment() {
    let plain = StorageConfig::from_env(&env(&[]));
    assert_eq!(plain.url, "http://localhost:6969");
    assert_eq!(plain.data_root, "./data/helix");
    assert_eq!(plain.database, "mnemos");
    assert_eq!(plain.backend, StorageBackend::EmbeddedDisk);
    assert_eq!(plain.object_region, "us-east-1");
    assert_eq!(plain.object_endpoint, None);
    assert!(!plain.object_allow_http);
    let set = StorageConfig::from_env(&env(&[
        ("MNEMOS_BACKEND", "s3"),
        ("MNEMOS_OBJECT_BUCKET", "b"),
        ("MNEMOS_OBJECT_ENDPOINT", "http://minio"),
        ("MNEMOS_OBJECT_ALLOW_HTTP", "YES"),
        ("MNEMOS_DATABASE", "first"),
        ("MNEMOS_DATABASE", "second"),
    ]));
    assert_eq!(set.backend, StorageBackend::ObjectStorage);
    assert_eq!(set.object_bucket, "b");
    assert_eq!(set.object_endpoint.as_deref(), Some("http://minio"));
    assert!(set.object_allow_http);
    assert_eq!(set.database, "second");
    let blank = StorageConfig::from_env(&env(&[("MNEMOS_OBJECT_ENDPOINT", "")]));
    assert_eq!(blank.object_endpoint, None);
}

#[test]
fn embedding_dimension_comes_from_the_environment() {
    assert_eq!(embedding_dim_from_env(&env(&[])), 1536);
    assert_eq!(embedding_dim_from_env(&env(&[("EMBEDDING_DIM", " 384 ")])), 384);
    assert_eq!(embedding_dim_from_env(&env(&[("EMBEDDING_DIM", "0")])), 1536);
    assert_eq!(embedding_dim_from_env(&env(&[("EMBEDDING_DIM", "many")])), 1536);
}

#[test]
fn chat_settings_come_from_the_environment() {
    let plain = LlmConfig::from_env(&env(&[]));
    assert_eq!(plain.base_url, "https://api.openai.com/v1");
    assert_eq!(plain.embedding_base_url, "https://api.openai.com/v1");
    assert_eq!(plain.model, "gpt-4o-mini");
    assert_eq!(plain.embedding_model, "text-embedding-3-small");
    let set = LlmConfig::from_env(&env(&[("EMBEDDING_BASE_URL", "http://e"), ("OPENAI_BASE_URL", "http://c")]));
    assert_eq!(set.base_url, "http://c");
    assert_eq!(set.embedding_base_url, "http://e");
}

#[test]
fn default_thresholds_are_the_documented_doubles() {
    let config = MnemosConfig::from_env(&env(&[])).expect("config always loads");
    let s = config.stimulation;
    assert_eq!(f64::from_bits(s.alpha_recalls.bits), 0.70);
    assert_eq!(f64::from_bits(s.alpha_abstracts_to.bits), 0.50);
    assert_eq!(f64::from_bits(s.alpha_reinforces.bits), 0.60);
    assert_eq!(f64::from_bits(s.alpha_temporal.bits), 0.30);
    assert_eq!(f64::from_bits(s.alpha_contradicts.bits), -0.40);
    assert_eq!(f64::from_bits(s.alpha_defines.bits), 0.20);
    assert_eq!(f64::from_bits(s.alpha_spawned_from.bits), 0.45);
    assert_eq!(f64::from_bits(s.beta_recurrent.bits), 0.35);
    assert_eq!(f64::from_bits(s.gamma_decay.bits), 0.75);
    assert_eq!(f64::from_bits(s.tau_threshold.bits), 0.15);
    assert_eq!((s.max_iterations, s.seed_limit), (4, 15));
    let c = config.consolidation;
    assert_eq!(f64::from_bits(c.prune_retention.bits), 0.05);
    assert_eq!(f64::from_bits(c.prune_importance.bits), 0.1);
    assert_eq!(f64::from_bits(c.compress_retention.bits), 0.15);
    assert_eq!(f64::from_bits(c.compress_importance.bits), 0.3);
    assert_eq!(f64::from_bits(c.promote_retention.bits), 0.8);
    assert_eq!((c.promote_min_activations, c.mitosis_min_engrams), (20, 10));
    assert_eq!(config.storage.database, "mnemos");
}
