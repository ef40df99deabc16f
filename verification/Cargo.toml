[package]
name = "site_qa"
version = "0.1.0"
edition = "2021"
publish = false

[dependencies]
anyhow = "*"
axum = { version = "*", features = ["multipart"] }
chrono = "*"
clap = { version = "*", features = ["derive", "env"] }
dotenvy = "*"
hex = "*"
ordered-float = "*"
rand = "*"
reqwest = { version = "*", default-features = false, features = ["json"] }
scraper = "*"
serde = { version = "*", features = ["derive"] }
serde_json = "*"
tempfile = "*"
tokio = { version = "*", features = ["macros", "net", "rt-multi-thread", "sync", "time"] }
url = "*"
which = "*"
