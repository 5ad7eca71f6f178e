[package]
name = "jarvis"
version = "0.1.0"
edition = "2021"
publish = false

[dependencies]
anyhow = "*"
axum = "=0.6.20"
ciborium = "=0.2.2"
config = "=0.15.27"
finl_unicode = "=1.5.0"
isolang = { version = "=2.4.0", features = ["english_names", "local_names", "list_languages"] }
libflate = "=2.3.2"
log = "*"
rand = "=0.8.8"
reqwest = { version = "=0.11.27", default-features = false, features = ["json", "gzip", "rustls-tls"] }
serde = { version = "*", features = ["derive"] }
serde_json = "=1.0.151"
sha3 = "=0.12.0"
structured-logger = "=1.0.5"
tiktoken-rs = "=0.12.1"
tokio = { version = "1", features = ["full"] }
uuid = { version = "=1.27.0", features = ["v4"] }
xid = "=1.1.1"
scylla = { version = "=1.9.0", features = ["metrics"] }
qdrant-client = "=1.19.0"
rustis = "=0.27.0"
