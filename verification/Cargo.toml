[package]
name = "html_concat"
version = "0.1.0"
edition = "2021"
publish = false

[dependencies]
scraper = "*"
html5ever = "*"
reqwest = { version = "*", default-features = false }
tokio = { version = "*", features = ["full"] }
anyhow = "*"
derive_builder = "*"
serde = { version = "*", features = ["derive"] }
