[package]
name = "load_balancer"
version = "0.1.0"
edition = "2021"
publish = false

[dependencies]
url = "2"
serde_yaml = "0.9"
serde = { version = "1", features = ["derive"] }
serde_json = "1"
tokio = { version = "1", features = ["full"] }
hyper = { version = "1", features = ["http1", "server", "client"] }
hyper-util = { version = "0.1", features = ["tokio"] }
http-body-util = "0.1"
crossbeam-channel = "0.5"
async-channel = "2"
reqwest = { version = "0.12", default-features = false }
clap = { version = "4", features = ["derive"] }
log = "0.4"
simple_logger = "5"
