[package]
name = "xproxy"
version = "0.1.0"
edition = "2021"
publish = false

[dependencies]
httpdate = "*"
tokio = { version = "*", features = ["rt-multi-thread", "net", "io-util", "fs", "time", "macros", "sync"] }
tokio-rustls = "*"
