[package]
name = "hyperpuzzle"
version = "0.1.0"
edition = "2021"
publish = false

[dependencies]
rand = "0.9"
serde = { version = "1", features = ["derive"] }
serde_json = "1"
thiserror = "2"
eyre = "0.6"
clap = { version = "4", features = ["derive"] }
parking_lot = "0.12"
