[package]
name = "lilith"
version = "0.1.0"
edition = "2021"
publish = false

[dependencies]
anyhow = "=1.0.104"
bytemuck = { version = "=1.25.2", features = ["derive"] }
wgpu = { version = "=29.0.4", default-features = false, features = ["wgsl"] }
winit = { version = "=0.30.13", default-features = false, features = ["x11", "rwh_06"] }
pollster = "=0.4.0"
env_logger = { version = "=0.11.11", default-features = false }
ab_glyph = "=0.2.32"
gltf = "=1.4.1"
rodio = { version = "=0.20.1", default-features = false, features = ["wav"] }
