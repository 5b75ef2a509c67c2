[package]
name = "bevy_seedling"
version = "0.1.0"
edition = "2021"
publish = false

[dependencies]
bevy_app = "=0.18.1"
bevy_ecs = "=0.18.1"
firewheel = { version = "=0.14.0", default-features = false, features = ["std"] }
