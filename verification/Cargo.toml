[package]
name = "tidy-viewer"
version = "0.1.0"
edition = "2021"
publish = false

[dependencies]
unicode-width = "=0.1.11"
unicode-truncate = "=0.2.0"
csv = "=1.4.0"
owo-colors = "=3.5.0"
crossterm = "=0.22.1"
structopt = "0.3"
serde = { version = "1", features = ["derive"] }
serde_json = "1"
toml = "0.5"
directories = "4"
atty = "0.2"
calm_io = "0.1"
