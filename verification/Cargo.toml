[package]
name = "rugmat"
version = "0.1.0"
edition = "2021"
publish = false

[dependencies]
blake3 = "1"
gmp-mpfr-sys = "1"
rayon = "1"
rug = "1"
