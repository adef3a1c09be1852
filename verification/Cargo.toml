[package]
name = "cortex_flow"
version = "0.1.0"
edition = "2021"
publish = false

[dependencies]
serde = { version = "1", features = ["derive"] }
serde_json = "1"
chrono = "0.4"
uuid = { version = "1", features = ["v4"] }
num_cpus = "1"
toml = "0.8"
tokio = { version = "1", features = ["full"] }
futures = "0.3"
async-trait = "0.1"
parking_lot = "0.12"
anyhow = "1"
thiserror = "1"
axum = "0.7"
tower-http = { version = "0.5", features = ["cors", "fs"] }
tokio-stream = { version = "0.1", features = ["sync"] }
tracing = "0.1"
tracing-subscriber = { version = "0.3", features = ["env-filter"] }
