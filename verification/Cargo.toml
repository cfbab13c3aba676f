[package]
name = "portal_engine"
version = "0.1.0"
edition = "2021"
publish = false

[dependencies]
wgpu = "*"
winit = "*"
nalgebra = "*"
image = "*"
pollster = "*"
tobj = "*"
bytemuck = "*"
approx = "*"
