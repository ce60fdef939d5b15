[package]
name = "crater_report"
version = "0.1.0"
edition = "2021"
publish = false

[dependencies]
flate2 = "1"
percent-encoding = "2"
regex = "1"
reqwest = { version = "0.12", default-features = false, features = ["blocking", "json", "rustls-tls"] }
serde = { version = "1", features = ["derive"] }
tar = "0.4"
