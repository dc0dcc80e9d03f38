[package]
name = "qbank"
version = "0.1.0"
edition = "2021"
publish = false

[dependencies]
serde = { version = "*", features = ["derive"] }
serde_json = "*"
sha2 = "*"
hex = "*"
chrono = "*"
anyhow = "*"
reqwest = { version = "*", default-features = false, features = ["blocking", "json", "rustls-tls"] }
lopdf = "*"
regex = "*"
once_cell = "*"
parking_lot = "*"
dotenvy = "*"
base64 = "*"
