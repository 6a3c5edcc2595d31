[package]
name = "nextgen"
version = "0.1.0"
edition = "2021"
publish = false

[dependencies]
chrono = "=0.4.45"
pulldown-cmark = "=0.13.4"
serde = { version = "=1.0.229", features = ["derive"] }
tera = "=1.20.1"
toml = "=1.1.7"
walkdir = "=2.5.0"
