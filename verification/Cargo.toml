[package]
name = "harmony"
version = "0.1.0"
edition = "2021"
publish = false

[dependencies]
ez_audio = "*"
serde = { version = "1", features = ["derive"] }
ron = "*"
tokio = { version = "1", features = ["full"] }
web-view = "*"
tinyfiledialogs = "*"
directories = "*"
single-instance = "*"
msgbox = "*"
