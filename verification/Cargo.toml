[package]
name = "kg_indexer"
version = "0.1.0"
edition = "2021"
publish = false

[dependencies]
md-5 = "=0.10.6"
uuid = { version = "=1.27.0", features = ["v4"] }
zstd = "=0.13.3"
chrono = "=0.4.45"
alloy = { version = "=2.5.0", default-features = false }
serde_json = "=1.0.151"
