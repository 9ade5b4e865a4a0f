[package]
name = "colosseum"
version = "0.1.0"
edition = "2021"
publish = false

[dependencies]
laminar = "0.5"
crossbeam = "0.8"
log = "0.4"
env_logger = "0.10"
serde = { version = "1", features = ["derive"] }
serde_json = "1"
