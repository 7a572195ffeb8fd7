[package]
name = "liteparse"
version = "0.1.0"
edition = "2021"
publish = false

[dependencies]
image = { version = "0.25", default-features = false, features = ["png", "jpeg", "gif", "bmp", "tiff", "webp"] }
tiny-skia = "0.11"
skrifa = "*"
serde = { version = "1", features = ["derive"] }
log = "0.4"
web-time = "1"
