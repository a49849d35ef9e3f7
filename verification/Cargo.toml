[package]
name = "signaling_server"
version = "0.1.0"
edition = "2021"
publish = false

[dependencies]
dashmap = "*"
uuid = { version = "*", features = ["v7"] }
crossfire = "*"
tokio = { version = "*", features = ["rt-multi-thread", "macros", "net", "sync", "time"] }
tokio-tungstenite = "*"
futures-util = "*"
serde = { version = "*", features = ["derive"] }
serde_json = "*"
log = "*"
env_logger = "*"
anyhow = "*"
thiserror = "*"
