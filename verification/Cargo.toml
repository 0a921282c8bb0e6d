[package]
name = "flash_lso"
version = "0.6.0"
edition = "2021"
publish = false

[dependencies]
clap = "4"
serde = { version = "1", features = ["derive"] }
serde_json = "1"
thiserror = "1"
enumset = { version = "1", features = ["serde"] }
env_logger = "*"
log = "0.4"
