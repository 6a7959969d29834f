[package]
name = "mikrotik_api"
version = "0.1.0"
edition = "2021"
publish = false

[dependencies]
encoding_rs = "*"
tokio = { version = "*", features = ["net", "io-util", "rt", "sync", "macros"] }
tokio-stream = "*"
