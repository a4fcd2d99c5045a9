[package]
name = "plaid_kit"
version = "0.1.0"
edition = "2021"
publish = false

[dependencies]
arc-swap = "*"
axum = "=0.8.9"
parking_lot = "*"
serde = { version = "=1.0.229", features = ["derive"] }
serde_json = "=1.0.154"
sysinfo = "=0.40.1"
tokio = { version = "1", features = ["macros", "rt-multi-thread", "signal"] }
tower_governor = "=0.8.0"
tracing = "*"
