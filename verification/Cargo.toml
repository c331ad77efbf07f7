[package]
name = "constraint_solver"
version = "0.1.0"
edition = "2021"
publish = false

[dependencies]
bytemuck = "1"
cgmath = "0.18"
env_logger = "0.10"
geometric_algebra = "*"
itertools = "0.10"
lerp = "0.4"
wgpu = "0.16"
winit = "0.28"
