[package]
name = "spindle_speed_updater"
version = "0.1.0"
edition = "2021"
publish = false

[dependencies]
eframe = { version = "0.22", default-features = false, features = ["default_fonts", "glow"] }
env_logger = "0.10"
log = "0.4"
thiserror = "1"
tokio = { version = "1", features = ["full"] }
walkdir = "2"
