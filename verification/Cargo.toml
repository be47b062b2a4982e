[package]
name = "splendor"
version = "0.1.0"
edition = "2021"
publish = false

[dependencies]
rand = "0.8"
rand_chacha = { version = "0.3", features = ["serde1"] }
bincode = "1"
ndarray = "0.15"
ndarray-npy = { version = "0.8", default-features = false }
