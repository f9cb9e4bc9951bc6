[package]
name = "solana_aggregator"
version = "0.1.0"
edition = "2021"
publish = false

[dependencies]
clap = { version = "4", features = ["derive"] }
hyper = { version = "0.14", features = ["client", "http1", "tcp"] }
log = "0.4"
serde = { version = "1", features = ["derive"] }
serde_json = "1"
simple_logger = "*"
tokio = { version = "1", features = ["full"] }
tokio-util = "0.7"
warp = "0.3"
