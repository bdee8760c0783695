[package]
name = "theme_picker"
version = "0.1.0"
edition = "2021"
publish = false

[dependencies]
sha2 = "0.10"
gtk4 = { version = "0.9", features = ["v4_10"] }
glib = "0.20"
walkdir = "2.5"
serde = { version = "1.0", features = ["derive"] }
toml = "0.8"
async-channel = "2.3"
libvips = "*"
