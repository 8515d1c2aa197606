[package]
name = "pictray"
version = "0.1.0"
edition = "2021"
publish = false

[dependencies]
anyhow = "1"
arboard = { version = "3", default-features = false, features = ["image-data"] }
blake3 = { version = "1", features = ["pure"] }
crossbeam-channel = "0.5"
dirs = "*"
global-hotkey = "*"
image = { version = "0.25", default-features = false, features = ["png", "jpeg", "gif", "webp", "bmp", "tiff"] }
tray-icon = "*"
