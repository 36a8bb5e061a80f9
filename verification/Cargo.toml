[package]
name = "resty"
version = "0.1.0"
edition = "2021"
publish = false

[dependencies]
serde = { version = "*", features = ["derive"] }
serde_json = "*"
hyper = { version = "*", features = ["server", "http1"] }
hyper-util = { version = "*", features = ["server", "http1", "tokio"] }
http-body-util = "*"
tokio = { version = "*", features = ["rt", "net"] }
