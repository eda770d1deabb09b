[package]
name = "linfa-clustering"
version = "0.1.0"
edition = "2021"
publish = false

[dependencies]
linfa = "=0.7.1"
ndarray = { version = "=0.15.6", features = ["serde"] }
ndarray-stats = "=0.5.1"
ndarray-rand = "=0.14.0"
rand_isaac = "=0.3.0"
serde = { version = "=1.0.229", features = ["derive"] }
