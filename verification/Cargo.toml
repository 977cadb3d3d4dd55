[package]
name = "sweeper_3d"
version = "0.1.0"
edition = "2021"
publish = false

[dependencies]
bevy = { version = "0.13", default-features = false }
egui_extras = { version = "0.26", default-features = false }
ndarray = "0.15"
rand = "0.8"
