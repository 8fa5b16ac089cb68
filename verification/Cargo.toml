[package]
name = "pahe_pipeline"
version = "0.1.0"
edition = "2021"
publish = false

[dependencies]
aes = "*"
anyhow = "*"
cbc = "*"
chrono = "*"
dirs = "*"
futures = "*"
hex = "*"
quick-js = "*"
rand = "*"
reqwest = { version = "*", default-features = false, features = ["rustls-tls"] }
sanitize-filename = "*"
scraper = "*"
serde = { version = "*", features = ["derive"] }
serde_json = "*"
tokio = { version = "*", features = ["rt-multi-thread", "macros", "time", "sync", "fs", "process", "io-util"] }
urlencoding = "*"
which = "*"
