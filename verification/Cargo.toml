[package]
name = "wake_bench"
version = "0.1.0"
edition = "2021"
publish = false

[dependencies]
rand = "*"
futures = "0.1"
tokio-timer = "0.1"
log = "*"
pretty_env_logger = "*"
