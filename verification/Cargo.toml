[package]
name = "dvb"
version = "0.1.0"
edition = "2021"
publish = false

[dependencies]
chrono = "=0.4.45"
multimap = "=0.10.1"
serde = { version = "=1.0.229", features = ["derive"] }
serde_json = "=1.0.151"
json = "=0.12.4"
reqwest = { version = "=0.13.5", default-features = false, features = ["json", "query", "blocking"] }
schemars = "=1.2.2"
