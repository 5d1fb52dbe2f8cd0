[package]
name = "rays"
version = "0.1.0"
edition = "2021"
publish = false

[dependencies]
rand = "0.8"
rayon = "1"
pixels = "0.9"
winit = { version = "0.26", default-features = false, features = ["x11"] }
winit_input_helper = "0.12"
