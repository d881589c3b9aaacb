[package]
name = "snap"
version = "0.1.0"
edition = "2021"
publish = false

[dependencies]
clap = { version = "4", features = ["derive"] }
image = { version = "0.25", default-features = false, features = ["png", "jpeg", "gif", "bmp", "pnm", "tiff", "webp", "ico", "tga", "qoi", "hdr", "dds", "ff"] }
