[package]
name = "rex"
version = "0.1.0"
edition = "2021"
publish = false

[dependencies]
bigerror = "*"
dashmap = "6"
derive_more = { version = "1", features = ["display"] }
parking_lot = "0.12"
tokio = { version = "1", features = ["rt", "sync", "time"] }
tracing = "0.1"
