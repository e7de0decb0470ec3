[package]
name = "hostcap"
version = "0.1.0"
edition = "2021"
publish = false

[dependencies]
anyhow = "*"
http = "*"
redis = "*"
reqwest = { version = "*", default-features = false, features = ["blocking"] }
rustls-pemfile = "*"
rustls-pki-types = "*"
serde = { version = "*", features = ["derive"] }
serde_json = "*"
structopt = "*"
toml = "*"
url = "*"
