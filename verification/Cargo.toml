[package]
name = "vt"
version = "0.1.0"
edition = "2021"
publish = false

[dependencies]
avt = "*"
serde = { version = "*", features = ["derive"] }
