[package]
name = "tezedge_debugger"
version = "0.1.0"
edition = "2021"
publish = false

[dependencies]
bytes = "=1.12.1"
rocksdb = { version = "=0.25.0", default-features = false }
tokio = { version = "=1.54.1", features = ["sync", "rt", "macros"] }
tracing = "=0.1.44"
warp = { version = "=0.3.7", default-features = false }
