[package]
name = "maze_caster"
version = "0.1.0"
edition = "2021"
publish = false

[dependencies]
image = "*"
minifb = "*"
nalgebra-glm = "*"
once_cell = "*"
rodio = "*"
