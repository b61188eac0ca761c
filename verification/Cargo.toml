[package]
name = "freetasia"
version = "0.1.0"
edition = "2021"
publish = false

[dependencies]
chrono = { version = "0.4", default-features = false, features = ["clock"] }
serde = { version = "1", features = ["derive"] }
serde_json = "1"
anyhow = "1"
log = "0.4"
env_logger = { version = "0.11", default-features = false }
crossbeam-channel = "0.5"
hound = "3.5"
eframe = { version = "0.27", default-features = false, features = ["default_fonts", "glow"] }
egui = { version = "0.27", default-features = false, features = ["default_fonts"] }
