[package]
name = "librcast"
version = "0.1.0"
edition = "2021"
publish = false

[dependencies]
dns-parser = "*"
matroska = "*"

[dev-dependencies]
uuid = "*"
