[package]
name = "avt"
version = "0.1.0"
edition = "2021"
publish = false

[dependencies]
unicode-width = "*"
rgb = "*"
serde = { version = "1", features = ["derive"] }
