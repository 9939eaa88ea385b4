[package]
name = "timscore"
version = "0.1.0"
edition = "2021"
publish = false

[dependencies]
timsrust = "=0.4.2"
rayon = "=1.12.0"
pyo3 = "=0.29.3"
