[package]
name = "crawler"
version = "0.1.0"
edition = "2021"
publish = false

[dependencies]
console_error_panic_hook = "*"
futures = "*"
nanohtml2text = "*"
regex-lite = "*"
scraper = "*"
serde = { version = "1", features = ["derive"] }
url = "2"
worker = "*"
