[package]
name = "neptune_core"
version = "0.1.0"
edition = "2021"
publish = false

[dependencies]
twenty-first = "=3.0.0"
num-bigint = "=0.4.8"
rusty-leveldb = "=4.0.1"
serde = { version = "=1.0.229", features = ["derive"] }
anyhow = "=1.0.104"
futures = "=0.3.34"

[dev-dependencies]
rand = "=0.8.8"
