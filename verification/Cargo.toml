[package]
name = "fragview"
version = "0.1.0"
edition = "2021"
publish = false

[dependencies]
fast_hilbert = "*"
image = "*"
serde_json = "*"
statrs = "*"
clap = { version = "*", features = ["derive"] }
