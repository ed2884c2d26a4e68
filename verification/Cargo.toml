[package]
name = "webx"
version = "0.1.0"
edition = "2021"
publish = false

[dependencies]
rand = "0.8"
html_parser = "0.7"
serde = { version = "1", features = ["derive"] }
serde_json = "1"
toml = "0.8"
