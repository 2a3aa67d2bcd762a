[package]
name = "owntier"
version = "0.1.0"
edition = "2021"
publish = false

[dependencies]
aes-gcm = "0.10"
anyhow = "1"
base64 = "0.22"
ciborium = "0.2"
clap = { version = "4", features = ["derive"] }
dirs = "5"
hkdf = "0.12"
rand = "0.8"
rpassword = "7"
rustls = { version = "0.23", default-features = false, features = ["ring", "std", "tls12"] }
serde = { version = "1", features = ["derive"] }
sha2 = "0.10"
x25519-dalek = { version = "2", features = ["static_secrets"] }
