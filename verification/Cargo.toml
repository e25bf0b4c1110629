[package]
name = "phira_mp"
version = "0.1.0"
edition = "2021"
publish = false

[dependencies]
async-trait = "0.1"
half = "2"
serde = { version = "1", features = ["derive"] }
serde_yaml_ng = "0.10"
thiserror = "2"
tokio = { version = "1", features = ["rt", "rt-multi-thread", "sync", "time", "fs", "macros"] }
tracing = "0.1"
