[package]
name = "cgc_core"
version = "0.1.0"
edition = "2021"
publish = false

[dependencies]
rand = "0.8"
bevy = { version = "0.14", default-features = false, features = ["bevy_state"] }
