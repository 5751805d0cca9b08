[package]
name = "raytracer"
version = "0.1.0"
edition = "2021"
publish = false

[dependencies]
rand = "=0.8.8"
png = "=0.17.16"
rayon = "=1.12.0"
indicatif = "=0.17.11"
