[package]
name = "link"
version = "0.1.0"
edition = "2021"
publish = false

[dependencies]
hmac = "0.12"
sha2 = "0.10"
chacha20poly1305 = "0.10"
rand = "0.8"
chrono = { version = "0.4", default-features = false, features = ["clock"] }
tokio = { version = "1", features = ["net", "io-util", "sync", "time", "rt", "fs"] }
async-trait = "0.1"
serde = { version = "1", features = ["derive"] }
thiserror = "1"
