[package]
name = "crawler"
version = "0.1.0"
edition = "2021"
publish = false

[dependencies]
url = "2"
robotstxt = "*"
scraper = "*"
tokio = { version = "1", features = ["rt-multi-thread", "macros", "time", "sync"] }
reqwest = { version = "*", default-features = false, features = ["rustls-tls"] }
tracing = "0.1"
tracing-subscriber = "0.3"
uuid = { version = "1", features = ["v4"] }
