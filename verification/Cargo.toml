[package]
name = "model_composer"
version = "0.1.0"
edition = "2021"
publish = false

[dependencies]
bevy = { version = "0.16", default-features = false, features = ["std", "async_executor", "bevy_asset", "bevy_state", "bevy_scene", "bevy_pbr", "bevy_gltf"] }
bevy_common_assets = { version = "0.13", features = ["json"] }
serde = { version = "1", features = ["derive"] }

[dev-dependencies]
serde_json = "1"
