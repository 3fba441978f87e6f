[package]
name = "predicate-authorityd"
version = "0.5.1"
edition = "2021"
publish = false

[dependencies]
glob = "=0.3.4"
sha2 = "=0.10.9"
hex = "=0.4.3"
uuid = { version = "=1.29.0", features = ["v4"] }
chrono = "=0.4.45"
lru = "=0.12.5"
serde = { version = "=1.0.229", features = ["derive"] }
serde_json = "=1.0.154"
serde_yaml = "=0.9.34"
hmac = "=0.12.1"
base64 = "=0.22.1"
p256 = { version = "=0.13.2", features = ["ecdsa"] }
ed25519-dalek = { version = "=2.2.0", features = ["rand_core"] }
rand = "=0.8.8"
urlencoding = "=2.1.3"
toml = "=0.8.23"
tokio = { version = "=1.54.1", features = ["rt-multi-thread", "macros", "net", "time", "signal", "sync"] }
axum = "=0.7.9"
reqwest = { version = "=0.12.28", default-features = false, features = ["json", "rustls-tls"] }
clap = { version = "=4.6.7", features = ["derive", "env"] }
tracing = "=0.1.44"
tracing-subscriber = "=0.3.23"
anyhow = "=1.0.104"
futures = "=0.3.34"
async-stream = "0.3"
tower-http = { version = "=0.6.11", features = ["cors"] }
