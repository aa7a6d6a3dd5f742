[package]
name = "file_finder"
version = "0.1.0"
edition = "2021"
publish = false

[dependencies]
regex = "1"
walkdir = "2"
sysinfo = "0.29"
globmatch = "*"
open = "*"
trash = "*"
serde = { version = "1", features = ["derive"] }
serde_json = "1"

[dev-dependencies]
tempfile = "3"
