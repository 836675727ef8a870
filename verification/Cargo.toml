[package]
name = "gemm"
version = "0.1.0"
edition = "2021"
publish = false

[dependencies]
rayon = "1.7"
half = { version = "~2.3.1", features = ["num-traits"] }
dyn-stack = "0.9"
num-complex = "0.4"
num-traits = "0.2"
