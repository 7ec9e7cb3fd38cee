[package]
name = "flist_walker"
version = "0.1.0"
edition = "2021"
publish = false

[dependencies]
anyhow = "1"
clap = { version = "4", features = ["derive"] }
fuzzy-matcher = "0.3"
regex = "1"
walkdir = "2"
