[package]
name = "glass_ui"
version = "0.1.0"
edition = "2021"
publish = false

[dependencies]
anyhow = "1"
blake3 = "1"
parking_lot = "0.12"
smali = "*"
tracing = "0.1"
