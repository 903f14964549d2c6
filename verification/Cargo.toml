[package]
name = "logust"
version = "0.1.0"
edition = "2021"
publish = false

[dependencies]
chrono = "0.4"
crossbeam-channel = "0.5"
flate2 = "1"
parking_lot = "0.12"
pyo3 = { version = "0.26", features = ["abi3-py39"] }
serde_json = "1"
