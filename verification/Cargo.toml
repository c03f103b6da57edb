[package]
name = "ledger_frames"
version = "0.1.0"
edition = "2021"
publish = false

[dependencies]
base64 = "0.22"
anyhow = "1"
clap = { version = "4", features = ["derive"] }
tokio = { version = "1", features = ["rt-multi-thread", "macros", "process", "io-util", "sync"] }

[dev-dependencies]
serde_json = "1"
