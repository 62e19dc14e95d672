[package]
name = "life_engine"
version = "0.1.0"
edition = "2021"
publish = false

[dependencies]
clap = { version = "*", features = ["derive"] }
image = { version = "*", default-features = false, features = ["png", "jpeg"] }
minifb = "*"
