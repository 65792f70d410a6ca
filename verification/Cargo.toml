[package]
name = "contest_trainer"
version = "0.1.0"
edition = "2021"
publish = false

[dependencies]
rand = { version = "0.8", features = ["small_rng"] }
toml = "0.8"
serde = { version = "1.0", features = ["derive"] }
chrono = "0.4"
dirs = "5"
crossbeam-channel = "0.5"
