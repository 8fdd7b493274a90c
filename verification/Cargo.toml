[package]
name = "lumos"
version = "0.1.0"
edition = "2021"
publish = false

[dependencies]
ndarray = "=0.16.1"
ndarray-linalg = "=0.17.0"
iced = { version = "=0.14.0", default-features = false, features = ["image", "tiny-skia", "x11", "thread-pool"] }
bytes = "=1.12.1"
