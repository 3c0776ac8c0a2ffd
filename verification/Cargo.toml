[package]
name = "ntrust_native"
version = "1.0.0"
edition = "2021"
publish = false

[dependencies]
aes = "0.8"
sha3 = "0.10"
hex = "0.4"
