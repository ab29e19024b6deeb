[package]
name = "freivalds"
version = "0.1.0"
edition = "2021"
publish = false

[dependencies]
ark-std = { version = "=0.6.0", features = ["getrandom"] }
clap = { version = "=4.6.7", features = ["derive"] }
