[package]
name = "photo_sort"
version = "0.1.0"
edition = "2021"
publish = false

[dependencies]
anyhow = "1"
blake3 = "1"
chrono = "0.4"
clap = { version = "4", features = ["derive"] }
ctrlc = "3"
kamadak-exif = "0.5"
image = { version = "0.25", default-features = false, features = ["jpeg", "png", "tiff"] }
serde = { version = "1", features = ["derive"] }
serde_json = "1"
tiny_http = "0.12"
walkdir = "2"
