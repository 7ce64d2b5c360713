[package]
name = "charon"
version = "0.1.0"
edition = "2021"
publish = false

[dependencies]
bevy = { version = "0.12", default-features = false, features = ["bevy_asset"] }
bevy_asset_loader = "0.18"
bevy_embedded_assets = "0.9"
bevy-persistent = { version = "0.4", features = ["toml"] }
iyes_progress = { version = "0.10", features = ["assets"] }
rand = "0.8"
serde = { version = "1", features = ["derive"] }
