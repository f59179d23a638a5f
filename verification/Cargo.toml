[package]
name = "yamux_cli"
version = "0.1.0"
edition = "2021"
publish = false

[dependencies]
anyhow = "1"
auto_enums = { version = "0.7", features = ["tokio1"] }
cfg-if = "1"
clap = { version = "3", features = ["derive"] }
env_logger = "0.9"
futures = "0.3"
log = "0.4"
pin-project-lite = "0.2"
tokio = { version = "1", features = ["full"] }
tokio-util = { version = "0.7", features = ["compat"] }
yamux = "0.10"
