[package]
name = "mini_telnet"
version = "0.1.0"
edition = "2021"
publish = false

[dependencies]
regex = "1"
encoding = "0.2"
tokio = { version = "1", features = ["net", "io-util", "time"] }
