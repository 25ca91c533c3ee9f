[package]
name = "fracantor"
version = "0.1.0"
edition = "2021"
publish = false

[dependencies]
gif = "*"
rayon = "*"
rand = "0.9"
image = "*"
svg = "*"
