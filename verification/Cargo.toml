[package]
name = "stil"
version = "0.1.0"
edition = "2021"
publish = false

[dev-dependencies]
combine = "=4.6.9"
