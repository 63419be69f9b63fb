[package]
name = "notes_state"
version = "0.1.0"
edition = "2021"
publish = false

[dependencies]
tempfile = "3"
tokio = { version = "1", features = ["fs", "rt", "rt-multi-thread"] }
argon2 = "0.5"
uuid = { version = "1", features = ["v4"] }
chrono = "0.4"

[dev-dependencies]
serde_json = "1"
