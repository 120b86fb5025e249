[package]
name = "pof"
version = "0.1.0"
edition = "2021"
publish = false

[dependencies]
nalgebra = "*"
nalgebra-glm = "*"
bytemuck = "*"
libm = "*"
