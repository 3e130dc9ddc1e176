[package]
name = "tinytetris"
version = "0.1.0"
edition = "2021"
publish = false

[dependencies]
rand = { version = "0.9", default-features = false, features = ["small_rng"] }
conquer-once = { version = "0.4", default-features = false }
spin = "0.9"
