[package]
name = "soundboard"
version = "0.1.0"
edition = "2021"
publish = false

[dependencies]
mki = "0.2"
cpal = "0.15"
crossbeam-channel = "0.5"
fundsp = "0.20"
soloud = "1"
serde = { version = "1", features = ["derive"] }
serde_json = "1"
log = "0.4"
