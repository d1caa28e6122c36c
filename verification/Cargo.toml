[package]
name = "band_songbook"
version = "0.1.0"
edition = "2021"
publish = false

[dependencies]
serde = { version = "1", features = ["derive"] }
serde_yaml = "0.9"
yamake = "*"
log = "0.4"

[dev-dependencies]
tempfile = "3"
