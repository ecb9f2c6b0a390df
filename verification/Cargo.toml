[package]
name = "cvm_announcements"
version = "0.1.0"
edition = "2021"
publish = false

[dependencies]
anyhow = "1"
contextvm-sdk = "*"
nostr-sdk = "*"
serde = { version = "1", features = ["derive"] }
serde_json = "1"
tokio = { version = "1", features = ["macros", "rt-multi-thread", "process", "time", "io-util"] }
tracing = "0.1"
tracing-subscriber = { version = "0.3", features = ["env-filter"] }
