[package]
name = "horton"
version = "0.1.0"
edition = "2021"
publish = false

[dependencies]
anyhow = "=1.0.104"
clap = { version = "=4.6.7", features = ["derive"] }
confique = { version = "=0.4.0", features = ["toml"] }
git2 = { version = "=0.21.0", default-features = false }
glob = "=0.3.4"
glob-match = "=0.2.1"
log = "=0.4.34"
log4rs = "=1.4.0"
rayon = "=1.12.0"
regex = "=1.13.1"
serde = { version = "=1.0.229", features = ["derive"] }
serde_json = "=1.0.154"
serde-sarif = "=0.8.0"
sha2 = "=0.10.9"
