[package]
name = "audiocloud"
version = "0.1.0"
edition = "2021"
publish = false

[dependencies]
uuid = { version = "1", features = ["v4"] }
itertools = "0.10"
nanoid = "0.4"
serde = { version = "1", features = ["derive"] }
serde_json = "1"
serde_yaml = "0.9"
serde_repr = "0.1"
clap = { version = "3.2", features = ["derive", "env"] }
anyhow = "1"
chrono = "0.4"

[dev-dependencies]
trim-margin = "0.1"
