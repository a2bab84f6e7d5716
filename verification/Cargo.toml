[package]
name = "dht_client"
version = "0.1.0"
edition = "2021"
publish = false

[dependencies]
anyhow = "1"
futures = "0.3"
libp2p = { version = "0.52", features = ["kad"] }
tokio = { version = "1", features = ["sync"] }
tokio-stream = "0.1"
tracing = "0.1"
