[package]
name = "rsdragonfly"
version = "0.1.0"
edition = "2021"
publish = false

[dependencies]
byteorder = "1"
crc = "3"
tokio = { version = "1", features = ["full"] }
futures = "0.3"
log = "0.4"
env_logger = "0.11"
clap = { version = "4", features = ["derive"] }
serde_json = "1"
libc = "0.2"
crossbeam = "0.8"
