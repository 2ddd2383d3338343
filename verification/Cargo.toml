[package]
name = "linkchecker"
version = "0.2.0"
edition = "2021"
publish = false

[dependencies]
url = "2"
scraper = "*"
reqwest = { version = "0.12", default-features = false, features = ["rustls-tls"] }
tokio = { version = "1", features = ["full"] }
futures = "0.3"
chromiumoxide = "*"
