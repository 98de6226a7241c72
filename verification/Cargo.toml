[package]
name = "timestamp_workflow"
version = "0.1.0"
edition = "2021"
publish = false

[dependencies]
chrono = "0.4"
humantime = "2"
log = "0.4"
env_logger = "*"
powerpack = "*"
cli-clipboard = "*"
