[package]
name = "manga_reader_engine"
version = "0.1.0"
edition = "2021"
publish = false

[dependencies]
anyhow = "1"
base64 = "0.22"
chrono = "0.4"
env_logger = "*"
futures = "0.3"
image = { version = "*", default-features = false, features = ["png", "jpeg", "webp", "gif", "bmp", "tiff"] }
log = "0.4"
lru = "*"
memmap2 = "*"
rusqlite = { version = "*", features = ["bundled"] }
serde = { version = "1", features = ["derive"] }
serde_json = "1"
sevenz-rust = "*"
tantivy = "*"
tokio = { version = "1", features = ["full"] }
tokio-util = { version = "*", features = ["codec"] }
unrar = "*"
uuid = { version = "1", features = ["v4"] }
zip = { version = "*", default-features = false, features = ["deflate"] }
