[package]
name = "mongobar"
version = "0.1.0"
edition = "2021"
publish = false

[dependencies]
serde = { version = "1", features = ["derive"] }
serde_json = "1"
sha3 = "0.10"
hex = "0.4"
regex = "1"
mongodb = "3"
tokio = { version = "1", features = ["full"] }
clap = { version = "4", features = ["derive"] }
chrono = "0.4"
futures = "0.3"
anyhow = "1"
csv = "1"
rand = "0.8"
num_cpus = "1"
