[package]
name = "popone"
version = "0.1.0"
edition = "2021"
publish = false

[dependencies]
image = { version = "0.25", default-features = false, features = ["png", "jpeg", "bmp", "tga", "dds"] }
glam = "*"
chrono = "0.4"
gltf = "1"
