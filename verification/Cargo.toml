[package]
name = "pydepsync"
version = "0.1.0"
edition = "2021"
publish = false

[dependencies]
clap = { version = "*", features = ["derive"] }
log = "*"
rustpython-parser = "*"
scraper = "*"
serde = { version = "*", features = ["derive"] }
simple_logger = "*"
taplo = "*"
toml = "*"
toml_edit = "*"
ureq = "*"
walkdir = "*"

[dev-dependencies]
tempfile = "*"
