[package]
name = "iris"
version = "0.1.0"
edition = "2021"
publish = false

[dependencies]
ab_glyph = "0.2"
arboard = { version = "3", default-features = false, features = ["image-data"] }
directories = "*"
futures = "0.3"
image = { version = "0.25", default-features = false, features = ["png"] }
libc = "0.2"
parking_lot = "0.12"
