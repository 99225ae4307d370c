[package]
name = "hls_capture"
version = "0.1.0"
edition = "2021"
publish = false

[dependencies]
m3u8-rs = "*"
url = "*"
reqwest = { version = "*", default-features = false, features = ["rustls-tls"] }
reqwest-middleware = "*"
reqwest-retry = "*"
tokio = { version = "*", features = ["full"] }
futures = "*"
anyhow = "*"
