[package]
name = "qr_encoder"
version = "0.1.0"
edition = "2021"
publish = false

[dependencies]
reed-solomon = "0.2"
image = { version = "0.25", default-features = false, features = ["png"] }
