[package]
name = "binary_greedy_meshing"
version = "0.1.0"
edition = "2021"
publish = false

[dependencies]
bit-iter = "*"
bytemuck = { version = "*", features = ["derive"] }
enum-map = "*"
