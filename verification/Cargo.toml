[package]
name = "raytrace"
version = "0.1.0"
edition = "2021"
publish = false

[dependencies]
clap = "2"
humantime = "1"
image = { version = "0.23", default-features = false, features = ["jpeg", "png"] }
pbr = "1"
rand = "0.7"
rayon = "1"
