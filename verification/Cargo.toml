[package]
name = "boids"
version = "0.1.0"
edition = "2021"
publish = false

[dependencies]
macroquad = "0.4"
quadtree_rs = "0.1"
rand = "0.8"
