[package]
name = "as2expert_desktop"
version = "0.1.0"
edition = "2021"
publish = false

[dependencies]
serde_json = "1"
tokio = { version = "1", features = ["rt-multi-thread"] }
eframe = { version = "0.30", default-features = false, features = ["glow", "default_fonts", "x11"] }
egui_extras = { version = "0.30", default-features = false }
rfd = "0.15"
