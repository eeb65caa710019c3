[package]
name = "eframe_tutorial"
version = "0.1.0"
edition = "2021"
publish = false

[dependencies]
egui = "0.27"
egui_extras = "0.27"
env_logger = "0.10"
ron = "0.8"
serde = { version = "1", features = ["derive"] }
