[package]
name = "h1_dispatch"
version = "0.1.0"
edition = "2021"
publish = false

[dependencies]
bytes = "1"
itoa = "1"
rustls = "0.20"
tokio = { version = "1", features = ["net", "rt", "io-util", "sync", "time", "macros"] }
