[package]
name = "khigy"
version = "0.1.0"
edition = "2021"
publish = false

[dependencies]
anyhow = "=1.0.104"
drm-fourcc = "=2.2.0"
env_logger = "=0.11.11"
log = "=0.4.34"
smithay = { version = "=0.7.0", default-features = false, features = ["wayland_frontend", "backend_vulkan"] }
