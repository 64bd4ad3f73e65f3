[package]
name = "typship"
version = "0.1.0"
edition = "2021"
publish = false

[dependencies]
typst-syntax = "=0.13.1"
url = "=2.5.8"
anyhow = "=1.0.104"
clap = { version = "=4.6.7", features = ["derive"] }
serde = { version = "=1.0.229", features = ["derive"] }
serde_json = "=1.0.154"
toml = "=1.1.8"
ignore = "=0.4.34"
dirs = "=7.0.0"
tempfile = "=3.27.0"
log = "=0.4.35"
env_logger = "=0.11.11"
axum = "=0.8.9"
tokio = { version = "=1.54.1", features = ["full"] }
tower = { version = "=0.5.3", features = ["util"] }
tower-http = { version = "=0.6.11", features = ["fs"] }
reqwest = { version = "=0.12.28", default-features = false, features = ["blocking", "rustls-tls"] }
octocrab = "=0.44.1"
dialoguer = "=0.11.0"
secrecy = "=0.10.3"
