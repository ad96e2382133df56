[package]
name = "zookeeper_recipes"
version = "0.1.0"
edition = "2021"
publish = false

[dependencies]
backon = { version = "1", features = ["tokio-sleep"] }
futures = "0.3"
snafu = "0.8"
tokio = { version = "1", features = ["rt", "sync", "time"] }
tracing = "0.1"
uuid = { version = "1", features = ["v4"] }
