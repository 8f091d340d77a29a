[package]
name = "agent_kit"
version = "0.1.0"
edition = "2021"
publish = false

[dependencies]
serde_json = "1"
tokio = { version = "=1.54.1", features = ["time", "rt", "macros", "sync"] }
