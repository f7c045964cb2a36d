[package]
name = "wallpaper-rs"
version = "0.1.0"
edition = "2021"
publish = false

[dependencies]
image = { version = "=0.25.10", default-features = false, features = ["png", "jpeg", "webp"] }
fast_image_resize = "=5.5.0"
garb = "=0.2.8"
anyhow = "=1.0.104"
serde = { version = "=1.0.229", features = ["derive"] }
toml = "=0.8.23"
xdg = "=3.0.0"
smart-default = "=0.7.1"
tracing = "=0.1.44"
tracing-subscriber = "=0.3.23"
smithay-client-toolkit = { version = "=0.19.2", default-features = false, features = ["calloop"] }
wayland-client = "=0.31.15"
tikv-jemallocator = "=0.6.1"
