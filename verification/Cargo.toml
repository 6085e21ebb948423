[package]
name = "neuralnet"
version = "0.1.0"
edition = "2021"
publish = false

[dependencies]
anyhow = "1"
csv = "1"
finalfusion = "*"
mnist = { version = "*", features = ["download"] }
nalgebra = "0.32"
ndarray = "0.15"
nlprule = "0.6"
rand = "0.8"
rand_distr = "0.4"
rayon = "1"
regex = "1"
