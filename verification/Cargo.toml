[package]
name = "invoker"
version = "0.1.0"
edition = "2021"
publish = false

[dependencies]
rand = "*"
tar = "*"
tokio = { version = "*", features = ["rt-multi-thread", "process", "fs", "io-util", "sync", "macros", "time"] }
uuid = { version = "*", features = ["v4"] }
