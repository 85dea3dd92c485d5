[package]
name = "mesh_curvature"
version = "0.1.0"
edition = "2021"
publish = false

[dependencies]
glow = "*"
sdl2 = "*"
tobj = "*"
ultraviolet = "*"
