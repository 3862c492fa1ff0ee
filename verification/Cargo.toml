[package]
name = "neuralnet"
version = "0.1.0"
edition = "2021"
publish = false

[dependencies]
anyhow = "*"
bytemuck = { version = "*", features = ["derive"] }
env_logger = "*"
flume = "*"
pollster = "*"
rand = "0.9"
wgpu = "*"
