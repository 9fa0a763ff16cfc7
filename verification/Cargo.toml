[package]
name = "tq_launcher"
version = "2.3.2608"
edition = "2021"
publish = false

[dependencies]
base64 = "0.22"
regex = "1"
sha2 = "0.11"
serde = { version = "1", features = ["derive"] }
serde_json = "1"
anyhow = "1"
reqwest = { version = "0.12", default-features = false, features = ["json", "rustls-tls"] }
zip = { version = "2", default-features = false, features = ["deflate"] }
