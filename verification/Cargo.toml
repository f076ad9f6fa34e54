[package]
name = "tracing_fastly"
version = "0.1.0"
edition = "2021"
publish = false

[dependencies]
fastly = "*"
serde = { version = "1", features = ["derive"] }
serde_json = "1"
serde_with = "3"
thiserror = "2"
tracing = "0.1"
tracing-subscriber = { version = "0.3", features = ["fmt", "registry"] }

[dev-dependencies]
serde_json = "1"
