[package]
name = "aprocess"
version = "0.1.0"
edition = "2021"
publish = false

[dependencies]
rand = "*"
tokio = { version = "*", features = ["rt-multi-thread", "net", "sync", "time", "macros", "io-util"] }
tokio-tungstenite = "*"
tungstenite = "*"
futures-util = "*"
