[package]
name = "cubic_sumcheck"
version = "0.1.0"
edition = "2021"
publish = false

[dependencies]
ark-bn254 = "0.4.0"
ark-ff = "0.4.2"
ark-std = "0.4.0"
rayon = "1.10"
tracing = "0.1"
tracing-texray = "0.2"
