[package]
name = "naive_sumcheck"
version = "0.1.0"
edition = "2021"
publish = false

[dependencies]
lambdaworks-math = "*"
rand = "0.8"
rayon = "1"
