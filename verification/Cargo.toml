[package]
name = "racoon_camera"
version = "0.1.0"
edition = "2021"
publish = false

[dependencies]
image = { version = "=0.25.10", default-features = false, features = ["jpeg"] }
fast_image_resize = "=6.1.0"
rand = "=0.9.5"
imageproc = { version = "=0.25.1", default-features = false }
nokhwa = { version = "=0.10.11", default-features = false }
eframe = { version = "=0.33.3", default-features = false, features = ["glow", "x11", "default_fonts"] }
onnxruntime = "=0.0.14"
virtualcam-rs = "=0.1.0"
