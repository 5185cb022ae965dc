[package]
name = "view_engine"
version = "0.1.0"
edition = "2021"
publish = false

[dependencies]
tinyrand = "=0.5.0"
tinyrand-std = "=0.5.0"
sdl2 = { version = "=0.38.0", features = ["image", "mixer"] }
skia-safe = { version = "=0.153.3", features = ["gl"] }
gl = "=0.14.0"
windows = { version = "=0.58.0", features = ["Win32_UI_HiDpi"] }
