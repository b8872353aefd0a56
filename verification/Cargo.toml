[package]
name = "rewriter_queue"
version = "0.1.0"
edition = "2021"
publish = false

[dependencies]
chrono = { version = "0.4", features = ["serde"] }
flate2 = "1"
libc = "0.2"
serde = { version = "1", features = ["derive"] }
serde_json = "1"
tar = "0.4"
tiny_http = "0.12"
toml = "0.8"
ureq = { version = "2", features = ["json"] }
url = "2"
walkdir = "2"
zed_extension_api = "0.7"
