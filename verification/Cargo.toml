[package]
name = "rust_proxy"
version = "0.1.0"
edition = "2021"
publish = false

[dependencies]
http = "0.2"
chrono = "0.4"
uuid = { version = "0.8", features = ["v4"] }
hyper = "0.13"
tokio = { version = "0.2", features = ["full"] }
tokio-rustls = "0.14"
rustls = "0.18"
async-std = "1"
futures = "0.3"
futures-util = "0.3"
cli-table = "0.3"
