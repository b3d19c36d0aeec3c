[package]
name = "termion"
version = "0.1.0"
edition = "2021"
publish = false

[dependencies]
eframe = { version = "0.31", default-features = false, features = ["default_fonts", "glow", "wayland", "x11"] }
egui = { version = "0.31", default-features = false, features = ["default_fonts"] }
nix = { version = "0.29", features = ["fs", "process", "term"] }
