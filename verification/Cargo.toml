[package]
name = "bevy_action_orc"
version = "0.1.0"
edition = "2021"
publish = false

[dependencies]
action-orc = "*"
bevy = { version = "0.17", default-features = false }
crossbeam = "*"
