[package]
name = "conv_transpose_probe"
version = "0.1.0"
edition = "2021"
publish = false

[dependencies]
burn-backend = { version = "=0.22.1", default-features = false }
rayon = "1"
