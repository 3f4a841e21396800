[package]
name = "rustic"
version = "0.1.0"
edition = "2021"
publish = false

[dependencies]
rand = { version = "0.7", default-features = false, features = ["small_rng"] }
crossbeam-channel = "0.5"
