[package]
name = "onion_crawler_core"
version = "1.0.0"
edition = "2021"
publish = false

[dependencies]
memchr = "2"
libflate = "1"
clap = { version = "4", features = ["derive"] }
futures = "0.3"
regex = "1"
reqwest = { version = "0.12", default-features = false, features = ["rustls-tls"] }
tokio = { version = "1", features = ["rt-multi-thread", "macros", "fs", "sync"] }
