[package]
name = "zxing"
version = "0.1.0"
edition = "2021"
publish = false

[dependencies]
rxing = "*"
anyhow = "1"
