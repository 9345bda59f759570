[package]
name = "pokem"
version = "0.1.0"
edition = "2021"
publish = false

[dependencies]
emojis = "0.6"
serde = { version = "1", features = ["derive"] }
serde_json = "1"
serde_yaml = "0.9"
url = "2"
urlencoding = "2"
