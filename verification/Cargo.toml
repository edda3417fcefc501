[package]
name = "nodeindex"
version = "0.1.0"
edition = "2021"
publish = false

[dependencies]
anyhow = "*"
axum = "*"
serde = { version = "*", features = ["derive"] }
serde_json = "*"
tokio = { version = "*", features = ["macros", "rt-multi-thread", "sync", "signal", "net"] }
tower-http = { version = "*", features = ["cors", "compression-gzip"] }
tracing = "*"
tracing-subscriber = "*"
