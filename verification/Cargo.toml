[package]
name = "initiative"
version = "0.1.0"
edition = "2021"
publish = false

[dependencies]
rand = "0.8"
serde = { version = "1", features = ["derive"] }
names = { version = "*", default-features = false }
eframe = { version = "*", default-features = false, features = ["persistence", "glow", "x11"] }
egui = "*"
