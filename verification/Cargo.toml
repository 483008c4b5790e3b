[package]
name = "raytracer"
version = "0.1.0"
edition = "2021"
publish = false

[dependencies]
image = { version = "*", default-features = false, features = ["png"] }
log = "0.4"
pretty_env_logger = "*"

[dev-dependencies]
approx = "0.5"
