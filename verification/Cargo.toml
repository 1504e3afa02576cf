[package]
name = "remux"
version = "0.1.0"
edition = "2021"
publish = false

[dependencies]
anyhow = "=1.0.104"
async-trait = "=0.1.92"
axum = "=0.8.9"
dashmap = "=6.2.1"
futures-util = "=0.3.34"
http = "=1.5.0"
hunch = "=2.0.4"
isolang = "=2.4.0"
libc = "=0.2.191"
librqbit = { version = "=8.1.1", features = ["http-api", "tracing-subscriber-utils"] }
moka = { version = "=0.12.16", features = ["sync"] }
rand = "=0.9.5"
regex = "=1.13.1"
reqwest = { version = "=0.12.28", default-features = false, features = ["stream"] }
serde = { version = "=1.0.229", features = ["derive", "rc"] }
serde_json = "=1.0.154"
tokio = { version = "=1.54.1", features = ["full"] }
tokio-util = { version = "=0.7.20", features = ["io"] }
tracing = "=0.1.44"
url = "=2.5.8"
urlencoding = "=2.1.3"
uuid = { version = "=1.29.0", features = ["serde", "v4", "v5"] }
