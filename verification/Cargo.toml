[package]
name = "blatta_stream"
version = "0.1.0"
edition = "2021"
publish = false

[dependencies]
smoltcp = "*"
anyhow = "*"
