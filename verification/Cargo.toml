[package]
name = "pixel_contrib"
version = "0.1.0"
edition = "2021"
publish = false

[dependencies]
nalgebra-glm = "=0.18.0"
log = "=0.4.35"
clap = { version = "=4.6.7", features = ["derive"] }
rand = "=0.8.8"
rand_chacha = "=0.3.1"
colorgrad = "=0.6.2"
cad_import = "*"
env_logger = "*"
chrono = "*"
image = { version = "*", default-features = false, features = ["png"] }
