[package]
name = "tgr"
version = "0.1.0"
edition = "2021"
publish = false

[dependencies]
glam = "*"
image = { version = "*", default-features = false, features = ["png", "jpeg", "bmp", "gif"] }
miniquad = "*"
quad-snd = "*"
quad-storage = "*"
rusttype = "*"
