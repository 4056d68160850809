[package]
name = "mkrp"
version = "0.1.0"
edition = "2021"
publish = false

[dependencies]
byteorder = "1"
flate2 = "1"
serde = { version = "1", features = ["derive"] }
serde_bytes = "0.11"
serde-pickle = "1"
thiserror = "1"
tracing = "0.1"
tracing-subscriber = "0.3"
walkdir = "2"
image = { version = "0.25", default-features = false, features = ["png", "jpeg", "gif", "bmp", "webp", "tga", "tiff", "ico", "pnm", "qoi"] }
fast_image_resize = "*"
fontdue = "0.9"
zenavif = "*"
libloading = "0.8"
rayon = "1"
