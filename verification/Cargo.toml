[package]
name = "roomnet"
version = "0.1.0"
edition = "2021"
publish = false

[dependencies]
bevy = { version = "=0.15.3", default-features = false, features = ["bevy_pbr", "bevy_picking", "bevy_mesh_picking_backend", "bevy_core_pipeline", "bevy_asset"] }
bevy_panorbit_camera = { version = "=0.21.2", default-features = false }
