[package]
name = "prefab_editor"
version = "0.1.0"
edition = "2021"
publish = false

[dependencies]
hashbrown = "=0.9.1"
ron = "=0.6.6"
serde = { version = "=1.0.229", features = ["derive"] }
bevy = { version = "0.12", default-features = false }
