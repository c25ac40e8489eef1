[package]
name = "raytracer"
version = "0.1.0"
edition = "2021"

[dependencies]
rand = { version = "*", features = ["small_rng"] }
bmp = "*"
minifb = "*"
