[package]
name = "quorums"
version = "0.1.0"
edition = "2021"
publish = false

[dependencies]
futures = "0.3"
prost = "0.13"
prost-build = "0.13"
tokio = { version = "1", features = ["full"] }
tokio-stream = "0.1"
tokio-util = "0.7"
tonic = "0.13"
