[package]
name = "praxis"
version = "0.1.0"
edition = "2021"
publish = false

[dependencies]
async-trait = "0.1"
http = "1"
metrics = "*"
pingora-core = "*"
pingora-http = "*"
pingora-proxy = "*"
serde = { version = "1", features = ["derive"] }
serde_yaml = "0.9"
tracing = "0.1"
