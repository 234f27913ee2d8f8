[package]
name = "potato_core"
version = "0.1.0"
edition = "2021"
publish = false

[dependencies]
unicode-normalization = "=0.1.26"
sha2 = "=0.10.9"
serde = { version = "=1.0.229", features = ["derive"] }
serde_json = "=1.0.154"
fernet = { version = "=0.2.2", default-features = false, features = ["rustcrypto"] }
base64 = "=0.22.1"
regex = "=1.13.1"
globset = "=0.4.21"
percent-encoding = "=2.3.2"
url = "=2.5.8"
