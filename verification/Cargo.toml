[package]
name = "cluster_client"
version = "0.1.0"
edition = "2021"
publish = false

[dependencies]
rusqlite = { version = "*", features = ["bundled"] }
tokio = { version = "*", features = ["rt", "net", "fs", "time", "io-util", "sync", "macros"] }
parking_lot = "*"
libc = "*"
