[package]
name = "ooproxy"
version = "0.1.0"
edition = "2021"
publish = false

[dependencies]
tokio = { version = "1", features = ["net", "io-util", "rt", "rt-multi-thread", "time", "macros"] }
libc = "0.2"
