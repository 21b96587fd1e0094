[package]
name = "openbook"
version = "0.1.0"
edition = "2021"
publish = false

[dependencies]
eframe = { version = "=0.32.3", default-features = false, features = ["glow", "default_fonts", "persistence", "x11"] }
egui_tiles = "=0.13.0"
hex = "=0.4.3"
hmac = "=0.12.1"
percent-encoding = "=2.3.2"
reqwest = { version = "=0.12.28", default-features = false, features = ["blocking"] }
serde = { version = "=1.0.229", features = ["derive"] }
serde_json = "=1.0.154"
sha2 = "=0.10.9"
