[package]
name = "hnsw_toolbox"
version = "0.1.0"
edition = "2021"
publish = false

[dependencies]
arrow-array = "60"
arrow-ipc = "60"
arrow-schema = "60"
parquet = { version = "60", default-features = false, features = ["arrow"] }
fast-hnsw = "1"
serde = { version = "1", features = ["derive"] }
serde_json = "1"
serde-pickle = "*"
thiserror = "*"
