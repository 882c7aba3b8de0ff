[package]
name = "numerical_algo_examples"
version = "0.1.0"
edition = "2021"

[dev-dependencies]
approx = "0.5"
