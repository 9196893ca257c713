[package]
name = "arcade"
version = "0.1.0"
edition = "2021"
publish = false

[dependencies]
bevy = "=0.5.0"
rand = "=0.8.8"
