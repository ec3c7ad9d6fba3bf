[package]
name = "goose"
version = "0.1.0"
edition = "2021"
publish = false

[dependencies]
serde_json = "=1.0.154"
blake3 = { version = "=1.8.7", features = ["pure"] }
lru = "=0.19.0"
tiktoken-rs = "=0.12.1"
anyhow = "=1.0.104"
async-stream = "0.3"
async-trait = "0.1"
futures = "0.3"
reqwest = { version = "0.12", default-features = false, features = ["json", "stream"] }
rmcp = { version = "=3.8.0", default-features = false }
serde = { version = "1", features = ["derive"] }
thiserror = "=2.0.21"
tokio = { version = "1", features = ["rt-multi-thread", "time", "sync", "macros"] }
tokio-stream = "0.1"
tokio-util = { version = "0.7", features = ["codec", "io"] }
uniffi = "=0.32.2"
utoipa = "=6.0.0"
