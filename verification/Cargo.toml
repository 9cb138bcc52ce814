[package]
name = "harbor"
version = "0.1.0"
edition = "2021"
publish = false

[dependencies]
encoding_rs = "0.8"
idna = "1"
env_logger = "0.11"
