[package]
name = "rusticsort"
version = "0.1.0"
edition = "2021"
publish = false

[dependencies]
dirs = "6"
walkdir = "2"
serde = { version = "1", features = ["derive"] }
serde_json = "1"
toml = "0.8"
iced = { version = "0.13", default-features = false, features = ["tiny-skia"] }
rfd = { version = "0.15", default-features = false, features = ["xdg-portal", "tokio"] }
open = "5"
lazy_static = "1"
