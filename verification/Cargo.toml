[package]
name = "facade"
version = "0.1.0"
edition = "2021"
publish = false

[dependencies]
anyhow = "1"
chrono = "0.4"
fern = "0.6"
hyper = { version = "0.14", features = ["client", "server", "http1", "http2", "tcp"] }
hyper-rustls = "0.23"
log = "0.4"
tokio = { version = "1", features = ["rt-multi-thread", "macros"] }
