[package]
name = "robrix"
version = "0.1.0"
edition = "2021"
publish = false

[dependencies]
ruma = "*"
htmlize = "*"
rangemap = "*"
indexmap = "*"
emojis = "*"
url = "*"
chrono = "*"
serde = { version = "*", features = ["derive"] }
