[package]
name = "tourbox"
version = "0.1.0"
edition = "2021"
publish = false

[dependencies]
clap = { version = "=4.6.7", features = ["derive"] }
enigo = "=0.2.1"
env_logger = "=0.11.11"
log = "=0.4.34"
rusb = "=0.9.4"
serde = { version = "=1.0.229", features = ["derive"] }
serde_json = "=1.0.154"
serialport = { version = "=4.10.1", default-features = false }
thiserror = "=1.0.69"
