[package]
name = "archive_manager"
version = "0.1.0"
edition = "2021"
publish = false

[dependencies]
anyhow = "1"
dotenvy = "0.15"
eframe = { version = "=0.34.3", default-features = false, features = ["glow", "x11"] }
egui_infinite_scroll = "0.10"
egui-phosphor = "=0.12.0"
env_logger = { version = "0.11", default-features = false }
log = "0.4"
neo4rs = "=0.8.0"
serde = { version = "1", features = ["derive"] }
tokio = { version = "1", features = ["rt-multi-thread"] }
toml = "=0.8.23"
