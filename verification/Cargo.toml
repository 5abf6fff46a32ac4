[package]
name = "rust_photo"
version = "0.1.0"
edition = "2021"
publish = false

[dependencies]
image = { version = "0.25", default-features = false, features = ["png", "jpeg", "tiff", "webp"] }
imageproc = { version = "0.25", default-features = false }
num_cpus = "1"
dirs = "5"
directories = "5"
serde = { version = "1", features = ["derive"] }
serde_json = "1"
uuid = { version = "1", features = ["v4"] }
log = "0.4"
env_logger = "0.11"
rand = "0.8"
rayon = "1"
cairo-rs = "0.20"
gtk4 = "0.9"
libadwaita = "0.7"
