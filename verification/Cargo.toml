[package]
name = "lokb"
version = "0.1.0"
edition = "2021"
publish = false

[dependencies]
uuid = { version = "=1.29.0", features = ["v7"] }
chrono = { version = "=0.4.45", default-features = false, features = ["clock", "std"] }
blake3 = "=1.8.7"
htmd = "=0.5.6"
zstd = "=0.13.4"
xz2 = "=0.1.7"
mail-parser = "=0.11.9"
fm-index = "=0.3.1"
serde = { version = "=1.0.229", features = ["derive"] }
serde_json = "1"
clap = { version = "=4.6.7", features = ["derive"] }
rusqlite = { version = "=0.41.1", features = ["bundled"] }
zip = { version = "=9.2.2", default-features = false, features = ["deflate"] }
pdf-extract = "=0.12.1"
flate2 = "1"
bincode = "=1.3.3"
kamadak-exif = "=0.6.1"
crossterm = { version = "0.28", default-features = false, features = ["events"] }
ratatui = { version = "0.29", default-features = false, features = ["crossterm"] }
tokio = { version = "1", features = ["rt-multi-thread", "net", "macros"] }
axum = { version = "=0.8.9", default-features = false, features = ["tokio", "http1", "json", "query"] }
reqwest = { version = "0.12", default-features = false, features = ["blocking", "json", "rustls-tls"] }
crossbeam-channel = "0.5"
ctrlc = "*"
num_cpus = "1"
thiserror = "2"
tantivy = { version = "=0.27.0", default-features = false, features = ["mmap"] }
