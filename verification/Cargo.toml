[package]
name = "skillhub"
version = "0.1.0"
edition = "2021"
publish = false

[dependencies]
serde = { version = "*", features = ["derive"] }
serde_json = "*"
serde_yaml = "*"
url = "*"
regex = "*"
html2text = "*"
chrono = "*"
zip = "*"
walkdir = "*"
tempfile = "*"
reqwest = { version = "*", default-features = false, features = ["blocking", "json"] }
dirs = "*"
