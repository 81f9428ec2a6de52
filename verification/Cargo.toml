[package]
name = "netwatch"
version = "0.1.0"
edition = "2021"
publish = false

[dependencies]
chrono = "0.4"
pnet = "0.35"
linfa = "0.7"
linfa-clustering = "0.7"
linfa-nn = "0.7"
ndarray = "0.15"
rand_xoshiro = "0.6"

[dev-dependencies]
serde_json = "1"
