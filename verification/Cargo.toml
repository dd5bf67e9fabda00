[package]
name = "shindan_maker"
version = "0.1.0"
edition = "2021"
publish = false

[dependencies]
scraper = "*"
ego-tree = "*"
serde_json = "*"
serde = { version = "*", features = ["derive"] }
reqwest = { version = "*", default-features = false, features = ["rustls-tls", "cookies"] }
tokio = { version = "*", features = ["rt-multi-thread", "macros"] }
anyhow = "*"
thiserror = "*"
