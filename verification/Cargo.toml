[package]
name = "vault_search"
version = "0.1.0"
edition = "2021"
publish = false

[dependencies]
aes-gcm = "0.10"
argon2 = "0.5"
base64 = "0.22"
hex = "0.4"
rayon = "1"
