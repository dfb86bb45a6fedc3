[package]
name = "rebit"
version = "0.1.0"
edition = "2021"
publish = false

[dependencies]
bytemuck = "1"
pollster = "0.4"
wgpu = "24"
winit = "0.30"
