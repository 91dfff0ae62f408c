[package]
name = "g2p2-server"
version = "0.1.0"
edition = "2021"
publish = false

[dependencies]
axum = "=0.7.9"
tokio = { version = "=1.54.1", features = ["macros", "rt-multi-thread", "net", "signal"] }
tower-http = { version = "=0.5.2", features = ["cors", "trace"] }
tracing = "=0.1.44"
tracing-subscriber = { version = "=0.3.23", features = ["env-filter"] }
serde = { version = "=1.0.229", features = ["derive"] }
serde_json = "=1.0.154"
whatlang = "0.16"
