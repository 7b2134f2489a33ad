[package]
name = "subtitle_editor"
version = "0.1.0"
edition = "2021"
publish = false

[dependencies]
serde = { version = "=1.0.229", features = ["derive"] }
serde_json = "=1.0.154"
reqwest = { version = "=0.12.28", default-features = false, features = ["blocking", "json", "rustls-tls"] }
eframe = { version = "=0.37.0", default-features = false, features = ["default_fonts", "glow", "x11"] }
egui = "=0.37.0"
rfd = { version = "=0.17.2", default-features = false, features = ["xdg-portal"] }
env_logger = "=0.11.11"
log = "=0.4.35"
