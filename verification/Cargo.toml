[package]
name = "keysound"
version = "0.1.0"
edition = "2021"
publish = false

[dependencies]
anyhow = "1"
device_query = "1.1"
rodio = "0.17"
