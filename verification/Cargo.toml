[package]
name = "domain_health"
version = "0.1.0"
edition = "2021"
publish = false

[dependencies]
anyhow = "1"
rand = "*"
regex = "1"
reqwest = { version = "*", features = ["blocking"] }
serde_json = "1"
sqlite = "*"
