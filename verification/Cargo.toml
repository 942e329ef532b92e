[package]
name = "audio-control"
version = "0.1.0"
edition = "2021"
publish = false

[dependencies]
gtk4 = "0.9"
gtk4-layer-shell = "0.4"
glib = "0.20"
libc = "0.2"
serde = { version = "1.0", features = ["derive"] }
toml = "*"
