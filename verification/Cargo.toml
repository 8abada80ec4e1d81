[package]
name = "poembook"
version = "0.1.0"
edition = "2021"
publish = false

[dependencies]
anyhow = "*"
derive_more = { version = "*", features = ["from"] }
lazy_static = "*"
scraper = "*"
serde = { version = "*", features = ["derive"] }
tera = "*"
thiserror = "*"
threadpool = "*"
toml = "*"
tracing = "*"
tracing-subscriber = "*"
