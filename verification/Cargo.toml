[package]
name = "asset_manager"
version = "0.1.0"
edition = "2021"
publish = false

[dependencies]
regex = "=1.13.1"
svgtypes = "=0.16.1"
scan_dir = "=0.3.3"
serde = { version = "=1.0.229", features = ["derive"] }
serde_json = "=1.0.154"
dirs = "=7.0.0"
arboard = { version = "=3.7.0", default-features = false }
rfd = { version = "0.17", default-features = false, features = ["xdg-portal"] }
eframe = { version = "0.36", default-features = false, features = ["glow", "default_fonts", "x11"] }
egui = "0.36"
egui_extras = { version = "0.36", default-features = false, features = ["svg"] }
egui_code_editor = "=0.4.2"
