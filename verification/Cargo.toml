[package]
name = "ca_extractor"
version = "0.1.0"
edition = "2021"
publish = false

[dependencies]
xml-rs = "*"
clap = { version = "*", features = ["derive"] }
reqwest = { version = "*", default-features = false, features = ["blocking", "rustls-tls"] }
