[package]
name = "galileo_tiles"
version = "0.1.0"
edition = "2021"
publish = false

[dependencies]
sled = "0.34"
flate2 = "1"
galileo-mvt = "*"
bytes = "1"
log = "0.4"
tokio = { version = "1", features = ["rt", "rt-multi-thread", "sync", "time", "macros"] }
anyhow = "1"
env_logger = "0.11"
web-time = "1"
