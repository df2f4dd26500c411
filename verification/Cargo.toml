[package]
name = "raytracer"
version = "0.1.0"
edition = "2021"
publish = false

[dependencies]
clap = { version = "4", features = ["derive"] }
console = "0.15"
crossbeam-channel = "0.5"
image = { version = "0.24", default-features = false, features = ["png"] }
rand = "0.8"
rand_distr = "0.4"
toml = "0.8"
