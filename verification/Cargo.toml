[package]
name = "bitmap_search"
version = "0.1.0"
edition = "2021"
publish = false

[dependencies]
image = { version = "*", default-features = false, features = ["bmp", "gif", "hdr", "jpeg", "png", "tga", "tiff", "webp"] }
