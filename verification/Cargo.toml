[package]
name = "ui_synth"
version = "0.1.0"
edition = "2021"
publish = false

[dependencies]
midir = "0.9"
midly = { version = "0.5", default-features = false, features = ["alloc", "std"] }
rodio = { version = "0.17", default-features = false }
serde = { version = "1", features = ["derive"] }
serde_json = "1"
