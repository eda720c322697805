[package]
name = "softraster"
version = "0.1.0"
edition = "2021"
publish = false

[dependencies]
ash = "*"
ash-window = "*"
cpal = "*"
gilrs = "*"
glam = "*"
interp = "*"
minifb = "*"
raw-window-handle = "*"
rfd = "*"
serde = { version = "*", features = ["derive"] }
serde_json = "*"
stb_image = "*"
zip = { version = "*", default-features = false, features = ["deflate"] }
