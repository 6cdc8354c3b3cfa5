[package]
name = "wstcp"
version = "0.2.1"
edition = "2021"
publish = false

[dependencies]
async-std = "1"
base64 = "0.13"
bytecodec = "0.4"
byteorder = "1"
clap = { version = "4", features = ["derive"] }
env_logger = "0.10"
httpcodec = "0.2"
log = "0.4"
sha-1 = "0.8"
trackable = "1"
