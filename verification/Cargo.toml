[package]
name = "music_player"
version = "0.1.0"
edition = "2021"
publish = false

[dependencies]
rand = "0.9"
image = { version = "0.25", default-features = false, features = ["png", "jpeg", "gif", "bmp", "webp", "tiff", "ico"] }
log = "0.4"
env_logger = "0.11"
lofty = "0.22"
single-instance = "0.3"
rodio = "0.21"
rfd = "0.15"
