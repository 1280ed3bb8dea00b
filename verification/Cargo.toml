[package]
name = "retirement_simulator"
version = "0.1.0"
edition = "2021"
publish = false

[dependencies]
chrono = { version = "0.4", default-features = false, features = ["clock", "std"] }
rand = "0.8"
rand_distr = "0.4"
yaml-rust = "0.4"
num-format = "0.4"
