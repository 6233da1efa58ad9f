[package]
name = "facecrop"
version = "0.1.0"
edition = "2021"
publish = false

[dependencies]
anyhow = "=1.0.104"
dlib-face-recognition = "=0.3.2"
image = { version = "=0.24.9", default-features = false, features = ["jpeg"] }
itertools = "=0.15.0"
minifb = "=0.29.0"
v4l = "=0.14.0"
