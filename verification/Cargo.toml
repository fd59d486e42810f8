[package]
name = "genetic_rl"
version = "0.1.0"
edition = "2021"
publish = false

[dependencies]
rand = "0.8"
rayon = "1"
serde = "1"
serde_derive = "1"
