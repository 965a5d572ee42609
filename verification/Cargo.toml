[package]
name = "depthmesh"
version = "0.1.0"
edition = "2021"
publish = false

[dependencies]
meshopt = "*"
nalgebra = "*"
anyhow = "*"
clap = { version = "*", features = ["derive"] }
image = { version = "*", default-features = false, features = ["exr", "png"] }
