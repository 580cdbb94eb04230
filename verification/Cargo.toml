[package]
name = "spatiub"
version = "0.1.0"
edition = "2021"
publish = false

[dependencies]
rand = "0.6"
futures = "0.1"
uuid = { version = "0.7", features = ["v4", "serde"] }
serde = { version = "1", features = ["derive"] }
bincode = "1"
bytes = "0.4"
tokio = "0.1"
tokio-codec = "0.1"
clap = "2"
env_logger = "0.6"
log = "0.4"
libc = "0.2"
