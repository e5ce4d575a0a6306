[package]
name = "sqllog2db"
version = "0.1.0"
edition = "2021"
publish = false

[dependencies]
memchr = "=2.8.3"
regex = "=1.13.1"
serde = { version = "=1.0.229", features = ["derive"] }
serde_json = "=1.0.154"
toml = "=0.8.23"
clap = { version = "=4.6.7", features = ["derive", "env"] }
clap_complete = "=4.6.11"
clap_mangen = "=0.2.33"
self_update = { version = "=0.42.0", default-features = false, features = ["rustls", "archive-tar", "compression-flate2"] }
indicatif = "*"
dm-database-parser-sqllog = "=0.9.2"
log = "=0.4.35"
env_logger = "=0.11.11"
chrono = "=0.4.45"
hdrhistogram = { version = "=7.6.0", default-features = false }
ctrlc = "=3.5.2"
rusqlite = { version = "=0.41.1", features = ["bundled"] }
