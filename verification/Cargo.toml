[package]
name = "blockchain"
version = "0.1.0"
edition = "2021"
publish = false

[dependencies]
bytes = "1"
clap = "3"
eyre = "0.6"
futures = "0.3"
rand = "0.8"
tokio = { version = "1", features = ["macros", "rt-multi-thread", "net", "time", "io-util"] }
tokio-stream = "0.1"
tracing = "0.1"
tracing-subscriber = { version = "0.3", features = ["env-filter"] }
url = "2"
