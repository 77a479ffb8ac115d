[package]
name = "image_compressor"
version = "0.1.0"
edition = "2021"
publish = false

[dependencies]
clap = { version = "4", features = ["derive"] }
env_logger = "0.10"
image = { version = "0.24", default-features = false, features = ["jpeg", "png", "gif", "webp", "tiff", "tga", "bmp", "ico", "hdr"] }
indicatif = "0.17"
log = "0.4"
oxipng = { version = "8.0", default-features = false, features = ["parallel"] }
rayon = "1"
walkdir = "2"
