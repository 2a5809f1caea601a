[package]
name = "tux"
version = "0.1.0"
edition = "2021"
publish = false

[dependencies]
path-clean = "1"
tempfile = "3"
tokio = { version = "1", features = ["rt-multi-thread", "sync", "net", "time"] }
warp = { version = "0.3", default-features = false }
