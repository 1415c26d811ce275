[package]
name = "voxel_layout"
version = "0.1.0"
edition = "2021"
publish = false

[dependencies]
bevy = { version = "=0.16.1", default-features = false, features = ["std", "bevy_gizmos", "bevy_log", "bevy_pbr"] }
chrono = "=0.4.45"
fnv = "=1.0.7"
iyes_perf_ui = "0.5"
rand = "=0.9.5"
serde = { version = "=1.0.229", features = ["derive"] }
serde_yml = "=0.0.13"
