[package]
name = "qryd_devices"
version = "0.1.0"
edition = "2021"
publish = false

[dependencies]
roqoqo = "*"
ndarray = "*"
serde = { version = "*", features = ["derive"] }
serde_json = "*"
bincode = "1"
itertools = "*"
