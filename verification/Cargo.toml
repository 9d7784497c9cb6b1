[package]
name = "framesage_tray"
version = "0.7.0"
edition = "2021"
publish = false

[dependencies]
anyhow = "1"
egui = "0.28"
egui_extras = "0.28"
parking_lot = "0.12"
serde = { version = "1", features = ["derive"] }
serde_json = "1"
tracing = "0.1"
