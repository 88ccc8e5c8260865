[package]
name = "chips_core"
version = "0.1.0"
edition = "2021"
publish = false

[dependencies]
semver = "1"
regex = "1"
uuid = { version = "1", features = ["v4"] }
rand = "0.8"
chrono = { version = "0.4", features = ["serde"] }
serde = { version = "1", features = ["derive"] }
serde_json = "1"
serde_yaml = "0.9"
clap = { version = "4", features = ["derive"] }
tokio = { version = "1", features = ["full"] }
tracing = "0.1"
tracing-subscriber = { version = "0.3", features = ["env-filter", "json"] }
tracing-appender = "0.2"
futures = "0.3"
async-trait = "0.1"
anyhow = "1"
thiserror = "1"
