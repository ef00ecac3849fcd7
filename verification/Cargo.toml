[package]
name = "anthropic_proxy"
version = "0.1.0"
edition = "2021"
publish = false

[dependencies]
async-stream = "0.3"
axum = "0.7"
bytes = "1"
futures = "0.3"
reqwest = { version = "0.12", default-features = false, features = ["json", "stream"] }
serde = { version = "1", features = ["derive"] }
serde_json = "1"
tiktoken-rs = "*"
tokio = { version = "1", features = ["macros", "net", "rt-multi-thread", "time"] }
tracing = "0.1"
