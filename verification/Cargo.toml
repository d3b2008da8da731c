[package]
name = "disk_mosaic"
version = "0.1.0"
edition = "2021"
publish = false

[dependencies]
unicode-normalization = "*"
home = "*"
serde = { version = "*", features = ["derive"] }
serde_json = "*"
