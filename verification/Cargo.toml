[package]
name = "openfairdb"
version = "0.1.0"
edition = "2021"
publish = false

[dependencies]
fast_chemail = "=0.9.6"
log = "=0.4.34"
serde = { version = "1", features = ["derive"] }
serde_json = "1"
tantivy = "=0.27.0"
url = "=2.5.8"
uuid = { version = "=1.29.0", features = ["v4"] }
