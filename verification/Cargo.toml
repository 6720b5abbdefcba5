[package]
name = "opus_rs"
version = "0.1.28"
edition = "2021"
publish = false

[dependencies]
libm = "0.2"
