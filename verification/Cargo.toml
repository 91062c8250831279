[package]
name = "mirajazz"
version = "0.1.0"
edition = "2021"
publish = false

[dependencies]
async-hid = "*"
async-io = "2"
futures-lite = "2"
image = { version = "0.25", default-features = false, features = ["bmp", "jpeg"] }
tokio = { version = "1", features = ["sync"] }
