[package]
name = "quotecast"
version = "0.1.0"
edition = "2021"
publish = false

[dependencies]
reqwest = { version = "0.11", default-features = false, features = ["rustls-tls"] }
serenity = "0.10"
tokio = { version = "1", features = ["macros", "rt-multi-thread", "time"] }
