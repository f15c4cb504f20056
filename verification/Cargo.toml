[package]
name = "voxel_world"
version = "0.1.0"
edition = "2021"
publish = false

[dependencies]
bevy = { version = "=0.18.1", default-features = false }
rand = "0.10"
ron = "*"
serde = { version = "1", features = ["derive"] }
strum = "*"
strum_macros = "*"
thiserror = "*"
