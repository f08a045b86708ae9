[package]
name = "engramdb"
version = "0.1.0"
edition = "2021"
publish = false

[dependencies]
anyhow = "=1.0.104"
chrono = { version = "=0.4.45", features = ["serde"] }
dirs = "=7.0.0"
fs4 = "=1.1.0"
futures-util = "0.3"
rand = "0.8"
rand_chacha = "0.3"
rayon = "=1.12.0"
rust-stemmers = "=1.2.0"
serde = { version = "=1.0.229", features = ["derive"] }
serde_json = "=1.0.154"
sha2 = "=0.11.1"
tempfile = "=3.27.0"
tokio = { version = "=1.54.1", features = ["fs", "rt", "macros", "sync", "time"] }
toml = "=1.1.8"
tracing = "=0.1.44"
turbovec = "*"
uuid = { version = "=1.29.0", features = ["v7", "serde"] }
zstd = "=0.14.3"
