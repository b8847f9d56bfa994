[package]
name = "iphoto_exporter"
version = "0.1.0"
edition = "2021"
publish = false

[dependencies]
crc32fast = "1"
plist = "1"
serde = { version = "1", features = ["derive"] }
log = "0.4"
env_logger = "*"
structopt = "0.3"
progressing = "*"
