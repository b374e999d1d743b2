[package]
name = "cb2_core"
version = "0.1.0"
edition = "2021"
publish = false

[dependencies]
ansi_term = "0.12"
chrono = "0.4"
clap = "2"
crossbeam-channel = "0.3"
env_logger = "0.6"
from_file = "*"
from_file_derive = "*"
futures = "0.1"
serde = { version = "1", features = ["derive"] }
serde_derive = "1"
serde_json = "1"
serde_yaml = "0.8"
shared_child = "*"
tokio = "0.1"
uuid = { version = "1", features = ["v4"] }
