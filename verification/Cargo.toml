[package]
name = "vpnkitrc"
version = "0.1.0"
edition = "2021"
publish = false

[dependencies]
ntex = { version = "*", features = ["tokio"] }
