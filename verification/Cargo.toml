[package]
name = "webrender"
version = "0.1.0"
edition = "2021"
publish = false

[dependencies]
base64 = "0.13"
image = { version = "0.22", default-features = false, features = ["png_codec"] }
rand = "0.4"
