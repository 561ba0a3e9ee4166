[package]
name = "mcpanel"
version = "0.1.0"
edition = "2021"
publish = false

[dependencies]
# Without `json`: it would switch on the `raw_value` feature of serde_json, with
# which a value does not always come back as it was printed.
axum = { version = "=0.8.9", default-features = false, features = ["form", "http1", "matched-path", "original-uri", "query", "tokio", "tower-log", "tracing"] }
bytes = "=1.12.1"
dashmap = "=6.2.1"
keyring = "=4.2.0"
libc = "=0.2.191"
ring = "=0.17.14"
rusqlite = { version = "=0.40.2", features = ["bundled"] }
serde = { version = "=1.0.229", features = ["derive"] }
serde_json = "=1.0.154"
thiserror = "=2.0.21"
tokio = { version = "=1.54.1", features = ["full"] }
tokio-stream = { version = "=0.1.19", features = ["sync"] }
tokio-util = { version = "=0.7.20", features = ["codec"] }
tower = { version = "=0.5.3", features = ["timeout", "util"] }
tower-http = { version = "=0.6.11", features = ["cors"] }
tracing = "=0.1.44"
tracing-subscriber = { version = "=0.3.23", features = ["env-filter"] }
