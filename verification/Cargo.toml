[package]
name = "tcp_transport"
version = "0.1.0"
edition = "2021"
publish = false

[dependencies]
tokio = { version = "1", features = ["rt-multi-thread", "net", "io-util", "sync", "macros", "time"] }
futures = "0.3"
slog = "2"
async-trait = "0.1"
