[package]
name = "ant_colony"
version = "0.1.0"
edition = "2021"
publish = false

[dependencies]
rand = { version = "=0.9.5", features = ["small_rng"] }
rayon = "=1.12.0"
indicatif = { version = "=0.18.6", features = ["rayon"] }
clap = { version = "=4.6.7", features = ["derive"] }
