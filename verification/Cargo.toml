[package]
name = "simd"
version = "0.1.0"
edition = "2021"
publish = false

[dependencies]
uuid = "1"
rand = "0.8"
outref = "0.5"
