[package]
name = "bible_mcp"
version = "0.1.0"
edition = "2021"
publish = false

[dependencies]
anyhow = "=1.0.104"
clap = { version = "=4.6.7", features = ["derive"] }
dirs = "=5.0.1"
fastembed = { version = "=4.9.1", default-features = false, features = ["hf-hub-rustls-tls", "ort-load-dynamic"] }
indicatif = "=0.17.11"
reqwest = { version = "=0.12.28", default-features = false, features = ["json", "rustls-tls"] }
rmcp = { version = "=0.1.5", features = ["server", "transport-io", "macros"] }
rusqlite = { version = "=0.32.1", features = ["bundled"] }
serde = { version = "=1.0.229", features = ["derive"] }
serde_json = "=1.0.154"
sha2 = "=0.10.9"
sqlite-vec = "=0.1.9"
strsim = "=0.11.1"
tokio = { version = "=1.54.1", features = ["full"] }

[dev-dependencies]
tempfile = "=3.27.0"
