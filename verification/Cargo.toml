[package]
name = "hls2dash"
version = "0.1.0"
edition = "2021"
publish = false

[dependencies]
anyhow = "=1.0.104"
axum = "=0.8.9"
bytes = "=1.12.1"
clap = { version = "=4.6.7", features = ["derive"] }
dashmap = "=6.2.1"
reqwest = { version = "=0.12.28", default-features = false, features = ["rustls-tls"] }
serde = { version = "=1.0.229", features = ["derive"] }
serde_yaml = "=0.9.34"
tokio = { version = "=1.54.1", features = ["fs", "io-util", "macros", "net", "rt-multi-thread", "signal", "sync", "time"] }
tokio-util = { version = "=0.7.20", features = ["io"] }
tower-http = { version = "=0.6.11", features = ["cors"] }
tracing = "=0.1.44"
tracing-subscriber = { version = "=0.3.23", features = ["env-filter"] }
transmux = "=0.19.0"
url = "=2.5.8"
