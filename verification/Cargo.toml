[package]
name = "watermarker"
version = "0.1.0"
edition = "2021"
publish = false

[dependencies]
serde = { version = "1", features = ["derive"] }
serde_json = "1"
img-parts = "0.4"
bytes = "1"
image = { version = "0.25", default-features = false, features = ["png", "jpeg", "tiff", "webp"] }
resvg = "0.45"
rayon = "1"
thiserror = "2"
urlencoding = "2"
