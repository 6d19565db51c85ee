[package]
name = "dominator_static"
version = "0.1.0"
edition = "2021"
publish = false

[dependencies]
pulldown-cmark = "=0.9.6"
scraper = { version = "=0.27.0", features = ["deterministic"] }
ego-tree = "=0.11.0"
anyhow = "1"
walkdir = "2"
