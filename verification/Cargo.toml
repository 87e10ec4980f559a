[package]
name = "manifold_visualizer"
version = "0.1.0"
edition = "2021"
publish = false

[dependencies]
anyhow = "*"
linked-hash-map = "*"
minifb = "*"
nalgebra = "*"
ply-rs = "*"
