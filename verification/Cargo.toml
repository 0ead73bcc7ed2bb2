[package]
name = "booksearch"
version = "0.1.0"
edition = "2021"
publish = false

[dependencies]
anyhow = "=1.0.104"
crossterm = "=0.29.0"
image = "=0.25.10"
ratatui = "=0.30.2"
ratatui-image = { version = "=11.1.0", default-features = false, features = ["image-defaults", "crossterm"] }
rbook = "=0.7.12"
rusqlite = { version = "=0.41.1", features = ["bundled"] }
serde_json = "=1.0.154"
walkdir = "=2.5.0"
