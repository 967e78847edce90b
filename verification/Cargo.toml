[package]
name = "ozb"
version = "0.1.0"
edition = "2021"
publish = false

[dependencies]
rss = "2"
chrono = "0.4"
reqwest = { version = "0.12", default-features = false, features = ["blocking"] }
