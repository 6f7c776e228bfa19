[package]
name = "codeindex"
version = "0.1.0"
edition = "2021"
publish = false

[dependencies]
anyhow = "=1.0.104"
candle-core = { version = "=0.11.1", default-features = false }
candle-nn = { version = "=0.11.1", default-features = false }
candle-transformers = { version = "=0.11.1", default-features = false }
clap = { version = "=4.6.7", features = ["derive"] }
ctrlc = "=3.5.2"
daemonkit = "=0.1.0"
fastembed = { version = "=7.5.0", default-features = false, features = ["ort-load-dynamic", "hf-hub-rustls-tls"] }
futures-core = "=0.3.34"
globset = "=0.4.21"
ignore = "=0.4.34"
rand = "=0.10.3"
rusqlite = "=0.41.1"
serde = { version = "=1.0.229", features = ["derive"] }
serde_json = "=1.0.154"
sha2 = "=0.10.9"
tokenizers = { version = "=0.22.2", default-features = false, features = ["fancy-regex"] }
tokio = { version = "=1.54.1", features = ["rt-multi-thread", "io-util", "macros", "sync", "time", "net"] }
toml = "=1.1.8"
ureq = "=3.5.1"

[dev-dependencies]
hex = "=0.4.3"
tempfile = "=3.27.0"
