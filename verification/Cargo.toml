[package]
name = "file_host"
version = "0.1.0"
edition = "2021"
publish = false

[dependencies]
uuid = { version = "1", features = ["v4"] }
actix-web = "4"
actix-service = "2"
bb8-postgres = "*"
tokio = { version = "1", features = ["fs", "io-util", "rt"] }
futures = "0.3"
hyper = { version = "0.14", features = ["client", "http1", "tcp"] }
hyper-rustls = "0.24"
env_logger = "*"
