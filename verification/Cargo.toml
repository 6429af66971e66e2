[package]
name = "raft_node"
version = "0.1.0"
edition = "2021"
publish = false

[dependencies]
rand = "*"
anyhow = "*"
axum = { version = "*", features = ["ws"] }
futures-util = "*"
hickory-resolver = "*"
regex = "*"
serde = { version = "*", features = ["derive"] }
serde_json = "*"
tokio = { version = "*", features = ["macros", "rt-multi-thread", "sync", "time", "net"] }
tokio-tungstenite = "*"
