[package]
name = "terrain_generator"
version = "0.1.0"
edition = "2021"
publish = false

[dependencies]
bezier-rs = "*"
gl = "0.14"
glutin = "0.29"
imgui = "0.11"
imgui-opengl-renderer = "0.12"
imgui-winit-support = "0.11"
libc = "0.2"
lininterp = "*"
nalgebra-glm = "*"
noise = "0.8"
rand = "0.8"
