[package]
name = "media_sync"
version = "0.1.0"
edition = "2021"
publish = false

[dependencies]
bytes = "0.5"
hex = "0.4"
log = "0.4"
reqwest = { version = "0.10", default-features = false, features = ["json", "rustls-tls"] }
serde = { version = "1", features = ["derive"] }
serde_json = "1"
zip = { version = "0.5", default-features = false, features = ["deflate", "time"] }
