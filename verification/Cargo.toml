[package]
name = "mpc_node"
version = "0.1.0"
edition = "2021"
publish = false

[dependencies]
rand = "0.8"
sha2 = "0.10"
hex = "0.4"
serde = { version = "1", features = ["derive"] }
serde_json = "1"
uuid = { version = "1", features = ["v4"] }
tokio = { version = "1", features = ["net", "io-util", "sync", "macros", "rt-multi-thread", "time"] }
log = "0.4"
env_logger = "0.11"
