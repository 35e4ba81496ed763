[package]
name = "naamio"
version = "0.1.0"
edition = "2021"
publish = false

[dependencies]
http = "*"
parking_lot = "*"
libc = "*"
log = "*"
env_logger = "*"
chrono = "*"

[dev-dependencies]
serde_json = "*"
