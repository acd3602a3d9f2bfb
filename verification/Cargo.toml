[package]
name = "strapdown"
version = "0.1.0"
edition = "2021"

[dependencies]
nalgebra = "0.33"
