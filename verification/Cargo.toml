[package]
name = "neat"
version = "0.1.0"
edition = "2021"
publish = false

[dependencies]
anyhow = "*"
chrono = "*"
clap = { version = "*", features = ["derive"] }
dirs = "*"
glob = "*"
image = "*"
image_hasher = "*"
kamadak-exif = "*"
lofty = "*"
mime_guess = "*"
regex = "*"
serde = { version = "*", features = ["derive"] }
serde_json = "*"
toml = "*"
trash = "*"
walkdir = "*"
xxhash-rust = { version = "*", features = ["xxh3"] }
