[package]
name = "mvlookup"
version = "0.1.0"
edition = "2021"
publish = false

[dependencies]
ark-bn254 = "0.4.0"
ark-ff = "0.4.2"
ark-poly = "0.4.2"
rand = "0.8"
rayon = "1"
