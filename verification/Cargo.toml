[package]
name = "pad_engine"
version = "0.1.0"
edition = "2021"
publish = false

[dependencies]
rpki = { version = "*", features = ["ca", "rrdp"] }
url = "*"
serde = { version = "*", features = ["derive"] }
