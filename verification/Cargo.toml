[package]
name = "chain_state"
version = "0.1.0"
edition = "2021"
publish = false

[dependencies]
tokio = { version = "*", features = ["sync", "time"] }
parking_lot = "*"
pin-project = "*"
futures = "*"
