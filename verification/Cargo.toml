[package]
name = "packstore"
version = "0.1.0"
edition = "2021"
publish = false

[dependencies]
anyhow = "1"
backoff = "0.4"
bytes = "1"
chrono = { version = "0.4", default-features = false, features = ["clock"] }
humantime = "2"
integer-sqrt = "0.1"
log = "0.4"
serde = { version = "1", features = ["derive"] }
sha2 = "0.10"
tempfile = "3"
tokio = { version = "1", features = ["rt", "sync"] }
zstd = "0.13"
