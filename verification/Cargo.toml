[package]
name = "leafish_protocol"
version = "0.1.0"
edition = "2021"
publish = false

[dependencies]
aes = "0.7"
cfb8 = "0.7"
flate2 = "1"
serde_json = "1"
