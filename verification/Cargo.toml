[package]
name = "markview"
version = "0.1.0"
edition = "2021"
publish = false

[dependencies]
pulldown-cmark = { version = "0.13", default-features = false, features = ["html"] }
serde = { version = "1", features = ["derive"] }
egui = "=0.36.2"
eframe = { version = "=0.36.2", default-features = false, features = ["glow", "default_fonts", "x11"] }
egui_extras = { version = "=0.36.2", default-features = false }
egui_commonmark = "0.25"
image = { version = "0.25", default-features = false, features = ["png"] }
skrifa = "*"
