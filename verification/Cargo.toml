[package]
name = "bountiful"
version = "0.1.0"
edition = "2021"
publish = false

[dependencies]
amethyst = { version = "0.15", default-features = false, features = ["renderer", "vulkan"] }
amethyst_core = "*"
amethyst_window = "*"
nalgebra = "=0.19.0"
pathfinding = "=2.2.3"
winit = "0.19"
