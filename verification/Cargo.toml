[package]
name = "egscribe"
version = "0.1.0"
edition = "2021"
publish = false

[dependencies]
regex = "1"
markdown = "1"
serde = { version = "1", features = ["derive"] }
serde_json = "1"
uuid = { version = "1", features = ["v7"] }
env_logger = { version = "0.11", default-features = false }
eframe = { version = "0.29", default-features = false, features = ["glow", "default_fonts", "x11"] }
