[package]
name = "circuit_construction"
version = "0.1.0"
edition = "2021"
publish = false

[dependencies]
ark-ff = "=0.4.2"
ark-ec = "=0.4.2"
ark-poly = "=0.4.2"
ark-pallas = "=0.4.0"
rand = "=0.8.8"
blake2 = "=0.10.6"
