[package]
name = "plonky2_uniform_circuit_aggregation"
version = "0.1.0"
edition = "2021"
publish = false

[dependencies]
anyhow = "=1.0.104"
itertools = "=0.15.0"
plonky2 = "=0.2.2"
rayon = "=1.12.0"
