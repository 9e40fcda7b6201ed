[package]
name = "lucky_verities"
version = "0.1.0"
edition = "2021"
publish = false

[dependencies]
indexmap = "2"
serde_json = "1"
chrono = "0.4"
sdl2 = "0.37"
