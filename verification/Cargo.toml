[package]
name = "orchestra"
version = "0.1.0"
edition = "2021"
publish = false

[dependencies]
tokio = { version = "=1.54.1", features = ["full"] }
axum = { version = "=0.8.9", features = ["ws"] }
serde = { version = "=1.0.229", features = ["derive"] }
serde_json = "=1.0.154"
clap = { version = "=4.6.7", features = ["derive"] }
reqwest = { version = "=0.12.28", default-features = false, features = ["json", "stream"] }
reqwest-eventsource = "=0.6.0"
futures = "=0.3.34"
tokio-stream = "=0.1.19"
tokio-util = "=0.7.20"
tokio-retry = "=0.3.2"
tracing = "=0.1.44"
tracing-subscriber = "=0.3.23"
shared_child = "=1.1.2"
anyhow = "=1.0.104"
async-trait = "=0.1.92"
mime_guess = "=2.0.5"
include_dir = "=0.7.4"
