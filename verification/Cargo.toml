[package]
name = "raytracer"
version = "0.1.0"
edition = "2021"
publish = false

[dependencies]
colorgrad = "0.5"
image = { version = "*", default-features = false, features = ["jpeg", "png", "tiff"] }
indicatif = "*"
log = "*"
nalgebra = "*"
num-complex = "*"
num_cpus = "*"
prettytable-rs = "*"
rayon = "*"
serde = { version = "1", features = ["derive"] }
serde_yaml = "*"
structopt = "0.3"
