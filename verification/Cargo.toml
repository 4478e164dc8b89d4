[package]
name = "image_viewer"
version = "0.1.0"
edition = "2021"
publish = false

[dependencies]
directories = "5"
eframe = { version = "0.24", default-features = false, features = ["glow", "x11", "default_fonts"] }
image = { version = "0.25", default-features = false, features = ["jpeg", "png", "gif", "webp", "bmp", "ico", "tiff"] }
serde = { version = "1", features = ["derive"] }
serde_json = "1"
