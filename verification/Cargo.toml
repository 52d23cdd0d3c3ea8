[package]
name = "vox_scene"
version = "0.1.0"
edition = "2021"
publish = false

[dependencies]
anyhow = "1"
bevy = { version = "0.14", default-features = false, features = ["bevy_asset", "bevy_scene"] }
block-mesh = "0.2"
dot_vox = "5"
ndshape = "0.3"
serde = { version = "1", features = ["derive"] }
thiserror = "1"
