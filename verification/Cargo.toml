[package]
name = "authenticate_kerberos"
version = "0.1.0"
edition = "2021"
publish = false

[dependencies]
aes = "0.8"
base64 = "0.22"
hmac = "0.12"
pbkdf2 = "0.12"
sha1 = "0.10"
