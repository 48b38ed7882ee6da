[package]
name = "merlin"
version = "0.1.0"
edition = "2021"
publish = false

[dependencies]
ktx2 = "=0.3.0"
wgpu = "=23.0.1"
winit = "=0.30.13"
glam = "=0.27.0"
gltf = "=1.4.1"
bevy_ecs = "=0.14.2"
bevy_hierarchy = "=0.14.2"
crossbeam = "=0.8.5"
rapier3d = "=0.22.0"
tokio = { version = "=1.53.2", features = ["rt"] }
bytemuck = { version = "=1.25.2", features = ["derive"] }
env_logger = "=0.11.11"
itertools = "=0.13.0"
