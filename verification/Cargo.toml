[package]
name = "target_ring"
version = "0.1.0"
edition = "2021"
publish = false

[dependencies]
bevy = { version = "0.15", default-features = false, features = ["bevy_pbr", "bevy_gizmos", "bevy_winit", "x11", "png"] }
rand = "0.8"
