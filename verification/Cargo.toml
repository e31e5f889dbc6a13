[package]
name = "docling_backends"
version = "0.1.0"
edition = "2021"
publish = false

[dependencies]
encoding_rs = "=0.8.35"
flate2 = "=1.1.10"
mail-parser = "0.11"
rayon = "=1.12.0"
regex = "=1.13.1"
roxmltree = "=0.21.2"
scraper = "0.26"
serde = { version = "=1.0.229", features = ["derive"] }
serde_json = "=1.0.154"
