[package]
name = "skem"
version = "0.2.0"
edition = "2021"
publish = false

[dependencies]
anyhow = "=1.0.104"
clap = { version = "=4.6.7", features = ["derive"] }
inquire = "=0.9.4"
schemars = "=1.2.3"
serde = { version = "=1.0.229", features = ["derive"] }
serde_json = "=1.0.154"
serde_yaml = "=0.9.34"
tempfile = "=3.27.0"
walkdir = "=2.5.0"
self_update = { version = "=0.44.0", default-features = false, features = ["ureq", "rustls", "archive-tar", "compression-flate2"] }
