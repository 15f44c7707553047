[package]
name = "banderole"
version = "0.1.0"
edition = "2021"
publish = false

[dependencies]
serde_json = "*"
uuid = { version = "*", features = ["v4"] }
zip = "*"
walkdir = "*"
fs2 = "*"
directories = "*"
tempfile = "*"
anyhow = "*"
clap = { version = "*", features = ["derive"] }
tar = "*"
lzma-rs = "*"
sevenz-rust = "*"
serde = { version = "*", features = ["derive"] }
reqwest = { version = "*", default-features = false, features = ["blocking", "rustls-tls", "json"] }
