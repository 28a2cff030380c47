[package]
name = "phasellus"
version = "0.1.0"
edition = "2021"
publish = false

[dependencies]
cursive = "*"
serde = { version = "1", features = ["derive"] }
serde_json = "1"
unicode-width = "*"
