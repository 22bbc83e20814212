[package]
name = "pali_search"
version = "0.1.0"
edition = "2021"
publish = false

[dependencies]
anyhow = "1"
clap = { version = "4", features = ["derive"] }
counter = "*"
csv = "1"
rusqlite = "*"
serde = { version = "1", features = ["derive"] }
serde_json = "1"
tantivy = "*"
walkdir = "2"
