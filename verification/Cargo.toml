[package]
name = "editor_core"
version = "0.1.0"
edition = "2021"
publish = false

[dependencies]
fancy-regex = "*"
fuzzy-matcher = "*"
serde = { version = "*", features = ["derive"] }
serde_yaml = "*"
