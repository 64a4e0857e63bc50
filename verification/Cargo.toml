[package]
name = "peerchat"
version = "0.1.0"
edition = "2021"
publish = false

[dependencies]
sha2 = "0.10"
chacha20poly1305 = "0.10"
data-encoding = "2"
rand = "0.8"
