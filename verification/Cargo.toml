[package]
name = "pareto_layout"
version = "0.1.0"
edition = "2021"
publish = false

[dependencies]
rand = "0.8"
deflate = "*"
serde = { version = "1", features = ["derive"] }
serde_json = "1"
nalgebra = "0.32"
nalgebra-glm = "0.18"
approx = "*"
itertools = "*"
rayon = "1"
