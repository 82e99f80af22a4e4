[package]
name = "sub_converter"
version = "0.1.0"
edition = "2021"
publish = false

[dependencies]
base64 = "0.22"
regex = "1"
serde_json = { version = "1", features = ["preserve_order"] }
