[package]
name = "launcher"
version = "0.1.0"
edition = "2021"
publish = false

[dependencies]
gtk = "0.18"
libc = "0.2"
serde_json = "1"
