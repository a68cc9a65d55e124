[package]
name = "indexer"
version = "0.1.0"
edition = "2021"
publish = false

[dependencies]
scraper = "*"
reqwest = { version = "*", default-features = false }
tokio = { version = "*", features = ["macros", "rt-multi-thread"] }
serde = { version = "*", features = ["derive"] }
