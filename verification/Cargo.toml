[package]
name = "catalyzer"
version = "0.1.0"
edition = "2021"
publish = false

[dependencies]
anyhow = "=1.0.104"
chrono = "=0.4.45"
dirs = "=5.0.1"
fs_extra = "1"
git2 = { version = "=0.19.0", default-features = false }
junction = "1"
log = "=0.4.34"
rayon = "1"
regex = "=1.13.1"
reqwest = { version = "0.12", default-features = false, features = ["blocking", "json", "rustls-tls"] }
serde = { version = "=1.0.229", features = ["derive"] }
serde_json = "=1.0.154"
serde_yaml = "=0.9.34"
tempfile = "3"
zifu_core = "*"
zip-extract = "*"
