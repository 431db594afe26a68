[package]
name = "circuit_modules"
version = "0.1.0"
edition = "2021"
publish = false

[dependencies]
halo2_proofs = "=0.3.5"
halo2curves = "=0.10.0"
