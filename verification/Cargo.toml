[package]
name = "transcript_disclosure"
version = "0.1.0"
edition = "2021"
publish = false

[dependencies]
serde = { version = "1", features = ["derive"] }
serde_json = "1"
tokio = { version = "1", features = ["full"] }
clap = { version = "4", features = ["derive"] }
url = { version = "2", features = ["serde"] }
thiserror = "1"
hyper = { version = "1", features = ["client", "http1"] }
http-body-util = "0.1"
hyper-util = { version = "0.1", features = ["tokio"] }
tokio-util = { version = "0.7", features = ["compat"] }
