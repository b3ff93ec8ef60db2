[package]
name = "nexusmap_sync"
version = "0.1.0"
edition = "2021"
publish = false

[dependencies]
sha2 = "0.10"
serde = { version = "1", features = ["derive"] }
serde_json = "1"
chrono = "0.4"
walkdir = "2"
notify = "6"
reqwest = { version = "0.12", default-features = false, features = ["rustls-tls", "json", "blocking"] }
