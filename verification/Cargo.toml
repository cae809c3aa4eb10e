[package]
name = "planets"
version = "0.1.0"
edition = "2021"
publish = false

[dependencies]
rand = "=0.9.5"
bevy = { version = "=0.17.3", default-features = false }
noisy_bevy = "=0.11.0"
