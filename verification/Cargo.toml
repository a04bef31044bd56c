[package]
name = "jotphant"
version = "0.2.1"
edition = "2021"
publish = false

[dependencies]
chrono = { version = "0.4", default-features = false, features = ["std", "clock"] }
serde = { version = "1", features = ["derive"] }
serde_yaml_ng = "0.10"
toml = "0.8"
rusqlite = { version = "0.32", features = ["bundled"] }
directories = "6"
eframe = { version = "0.33", default-features = false, features = ["default_fonts", "glow", "x11"] }
egui_commonmark = { version = "0.22", default-features = false }
notify-rust = "4"
