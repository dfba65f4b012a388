[package]
name = "raytracer"
version = "0.1.0"
edition = "2021"
publish = false

[dependencies]
glm = "0.2.3"
image = "0.22"
instant = "0.1"
rand = "0.7"
sdl2 = "0.34"
