[package]
name = "zombies"
version = "0.6.0"
edition = "2021"
publish = false

[dependencies]
rand = "=0.8.5"
bevy = { version = "=0.16.1", default-features = false, features = ["bevy_sprite", "bevy_ui", "bevy_text", "bevy_state", "bevy_window", "bevy_render", "bevy_core_pipeline", "bevy_asset", "default_font"] }
