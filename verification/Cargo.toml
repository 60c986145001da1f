[package]
name = "verby"
version = "0.1.0"
edition = "2021"
publish = false

[dependencies]
eframe = { version = "*", default-features = false, features = ["persistence", "glow", "x11", "default_fonts"] }
egui = "*"
egui_extras = "*"
