[package]
name = "stroke_raster"
version = "0.1.0"
edition = "2021"
publish = false

[dependencies]
anyhow = "=1.0.104"
image = { version = "=0.25.10", default-features = false, features = ["png"] }
ocrs = "=0.13.1"
relm4 = "=0.6.2"
rten = "=0.26.0"
rten-imageproc = "=0.26.0"
rten-tensor = "=0.26.0"
smithay-client-toolkit = "=0.18.1"
wayland-client = "=0.31.15"
