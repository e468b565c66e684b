[package]
name = "fishtank"
version = "0.1.0"
edition = "2021"
publish = false

[dependencies]
num-traits = "0.2"
rand = "0.9"
cgmath = "0.18"
bytemuck = { version = "1", features = ["derive"] }
log = "0.4"
env_logger = "0.11"
pollster = "0.3"
winit = "0.29"
wgpu = "24"
