[package]
name = "raytracer_lib"
version = "0.1.0"
edition = "2021"
publish = false

[dependencies]
rand = "0.8"
rayon = "1"
clap = { version = "4", features = ["derive"] }
indicatif = "0.17"
serde = { version = "1", features = ["derive"] }
serde_json = "1"
nalgebra = "0.33"
tobj = "4"
image = { version = "0.25", default-features = false, features = ["png"] }
