[package]
name = "wsproto"
version = "0.1.0"
edition = "2021"
publish = false

[dependencies]
base64 = "=0.13.1"
rust-crypto = "=0.2.36"
httparse = "=1.10.1"
