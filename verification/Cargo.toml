[package]
name = "apple_notes_exporter_rs"
version = "0.1.0"
edition = "2021"
publish = false

[dependencies]
base64 = "*"
scraper = "*"
clap = { version = "*", features = ["derive"] }
tempfile = "*"
thiserror = "*"
