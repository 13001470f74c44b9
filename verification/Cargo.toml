[package]
name = "mnemos"
version = "0.1.0"
edition = "2021"
publish = false

[dependencies]
async-trait = "=0.1.92"
bytes = "=1.12.1"
chrono = "=0.4.45"
dotenvy = "=0.15.7"
fastembed = { version = "=6.1.0", default-features = false, features = ["ort-load-dynamic", "hf-hub-rustls-tls"] }
hdbscan = "=0.12.0"
helix-db = "=3.0.0"
http-body-util = "=0.1.5"
hyper = { version = "=1.12.0", features = ["server", "http1"] }
reqwest = { version = "=0.12.28", default-features = false, features = ["json"] }
rmcp = { version = "=3.8.0", features = ["server", "macros", "transport-io", "transport-streamable-http-server"] }
schemars = "=1.2.3"
serde = { version = "=1.0.229", features = ["derive"] }
serde_json = "=1.0.154"
thiserror = "=2.0.21"
tokio = { version = "=1.54.1", features = ["full"] }
tower = { version = "=0.5.3", features = ["util"] }
