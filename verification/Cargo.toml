[package]
name = "mediaplan"
version = "0.1.0"
edition = "2021"
publish = false

[dependencies]
anyhow = "*"
chrono = "*"
kamadak-exif = "*"
serde = { version = "*", features = ["derive"] }
serde_json = "*"
walkdir = "*"
