[package]
name = "content_ownership"
version = "0.1.0"
edition = "2021"
publish = false

[dependencies]
ink = "*"
parity-scale-codec = { version = "3", features = ["derive"] }
scale-info = { version = "2", features = ["derive"] }
