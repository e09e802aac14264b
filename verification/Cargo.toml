[package]
name = "oc_diagdoc"
version = "0.1.0"
edition = "2021"
publish = false

[dependencies]
sha2 = "=0.10.9"
hex = "=0.4.3"
regex = "=1.13.1"
semver = "=1.0.28"
serde = { version = "=1.0.229", features = ["derive"] }
serde_json = "=1.0.154"
serde_yaml = "=0.9.34"
clap = { version = "=4.6.7", features = ["derive"] }
chrono = "=0.4.45"
walkdir = "=2.5.0"
anyhow = "=1.0.104"
ratatui = "0.28"
crossterm = "0.28"
zip = { version = "0.6", default-features = false, features = ["deflate"] }
rayon = "1"
