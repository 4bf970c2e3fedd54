[package]
name = "anime_dl"
version = "0.1.0"
edition = "2021"
publish = false

[dependencies]
scraper = "0.12"
reqwest = { version = "0.11", default-features = false, features = ["blocking", "rustls-tls"] }
clap = { version = "4", features = ["derive"] }
simplelog = "0.12"
log = "0.4"
