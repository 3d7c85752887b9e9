[package]
name = "codeskew"
version = "0.1.0"
edition = "2021"
publish = false

[dependencies]
anyhow = "1"
clap = { version = "4", features = ["derive"] }
env_logger = "0.11"
indexmap = "2"
log = "0.4"
pollster = "0.4"
regex-syntax = "0.8"
snailquote = "0.3"
thiserror = "1"
wgpu = "24"

[dev-dependencies]
regex = "1"
