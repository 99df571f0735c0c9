[package]
name = "wayclicker"
version = "0.1.0"
edition = "2021"
publish = false

[dependencies]
evdev = "=0.13.2"
tokio = { version = "=1.53.2", features = ["full"] }
file-owner = "=0.1.2"
log = "=0.4.34"
env_logger = "=0.11.11"
clap = { version = "=4.6.7", features = ["derive"] }
