[package]
name = "state_tracker"
version = "0.1.0"
edition = "2021"
publish = false

[dependencies]
tokio = { version = "1", features = ["net", "sync", "rt", "rt-multi-thread", "time"] }
log = "0.4"

[dev-dependencies]
serde_json = "1"
