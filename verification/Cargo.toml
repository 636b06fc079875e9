[package]
name = "neuroevolution"
version = "0.1.0"
edition = "2021"

[dependencies]
bevy = { version = "0.12", default-features = false }
rand = "=0.8.8"
