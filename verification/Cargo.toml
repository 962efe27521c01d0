[package]
name = "matrix-osu-bot"
version = "0.1.0"
edition = "2021"
publish = false

[dependencies]
matrix-sdk = { version = "=0.16.1", default-features = false, features = ["e2e-encryption", "sqlite"] }
tokio = { version = "=1.54.1", features = ["macros", "rt", "time", "fs", "sync"] }
tracing = "=0.1.44"
serde = { version = "=1.0.229", features = ["derive"] }
serde_json = "=1.0.154"
thiserror = "=2.0.21"
inventory = "=0.3.25"

[dev-dependencies]
num-format = "=0.4.4"
