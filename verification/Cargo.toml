[package]
name = "waseda_moodle_checker"
version = "0.1.0"
edition = "2021"
publish = false

[dependencies]
regex = "=1.13.1"
scraper = { version = "=0.29.0", default-features = false }
ego-tree = "=0.11.1"
waseda-moodle = "=0.2.0"
clap = "=2.34.0"
dirs = "=7.0.0"
failure = "=0.1.8"
reqwest = { version = "=0.10.10", default-features = false, features = ["cookies", "rustls-tls"] }
serde = { version = "=1.0.229", features = ["derive"] }
serde_json = "=1.0.154"
tokio = { version = "=0.2.25", features = ["macros", "rt-threaded"] }
