[package]
name = "file_selector"
version = "0.1.0"
edition = "2021"
publish = false

[dependencies]
eframe = { version = "=0.22.0", default-features = false, features = ["default_fonts", "glow"] }
env_logger = { version = "=0.10.2", default-features = false }
rfd = "0.14"
