[package]
name = "vtz"
version = "0.1.0"
edition = "2021"
publish = false

[dependencies]
serde_json = "=1.0.154"
node-semver = "=2.2.0"
sha2 = "=0.10.9"
base64 = "=0.22.1"
ring = "=0.17.14"
similar = "=2.7.0"
glob = "=0.3.4"
url = "=2.5.8"
serde = { version = "=1.0.229", features = ["derive"] }
