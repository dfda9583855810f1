[package]
name = "kvikk"
version = "0.6.3"
edition = "2021"
publish = false

[dependencies]
anyhow = "1"
crossbeam-channel = "0.5"
eframe = { version = "*", default-features = false, features = ["default_fonts", "glow", "x11", "wayland"] }
egui = "*"
image = { version = "*", default-features = false, features = ["png"] }
leptess = "*"
pdfium-render = "*"
rfd = "*"
winit = "*"
