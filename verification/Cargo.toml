[package]
name = "bevy_sly_compute"
version = "0.1.0"
edition = "2021"
publish = false

[dependencies]
bevy = { version = "0.13", default-features = false }
crossbeam-channel = "0.5"
wgpu = { version = "0.19", default-features = false, features = ["wgsl"] }

[dev-dependencies]
bytemuck = "1"
