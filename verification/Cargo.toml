[package]
name = "recipe_node"
version = "0.1.0"
edition = "2021"
publish = false

[dependencies]
tokio = { version = "*", features = ["full"] }
tokio-tungstenite = "*"
futures-util = "*"
log = "*"
pretty_env_logger = "*"
