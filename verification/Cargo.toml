[package]
name = "bevy_global_input"
version = "0.1.0"
edition = "2021"
publish = false

[dependencies]
bevy = { version = "0.11", default-features = false }
crossbeam-channel = "0.5"
mki = "0.2"
mouce = "0.2"
