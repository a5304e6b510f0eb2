[package]
name = "audpro"
version = "0.1.0"
edition = "2021"
publish = false

[dependencies]
serde = { version = "1", features = ["derive"] }
serde_json = "1"
hound = "3.5"
cpal = "0.15"
