[package]
name = "kv_store"
version = "0.1.0"
edition = "2021"
publish = false

[dependencies]
anyhow = "1"
clap = { version = "4", features = ["derive"] }
tokio = { version = "1", features = ["rt-multi-thread", "net", "io-util", "sync", "macros"] }
tracing = "0.1"
tracing-subscriber = "0.3"
