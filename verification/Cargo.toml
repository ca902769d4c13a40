[package]
name = "claw"
version = "0.1.0"
edition = "2021"
publish = false

[dependencies]
url = "2"
robotstxt = "*"
scraper = "*"
rand = "*"
reqwest = { version = "0.12", default-features = false }
tokio = { version = "1", features = ["macros", "rt-multi-thread", "time", "sync"] }
actix-web = { version = "4", default-features = false, features = ["macros"] }
async-stream = "*"
bytes = "1"
serde = { version = "1", features = ["derive"] }
serde_json = "1"
anyhow = "1"
