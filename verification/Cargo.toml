[package]
name = "ascii_mosaic"
version = "0.1.0"
edition = "2021"
publish = false

[dependencies]
image = "*"
rusttype = "*"
ttf-parser = "*"
rayon = "*"
