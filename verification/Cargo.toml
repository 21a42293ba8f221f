[package]
name = "rustotpony"
version = "0.1.0"
edition = "2021"
publish = false

[dependencies]
base32 = "*"
rust-crypto = "*"
sha2 = "*"
rand = "*"
totp-lite = "*"
clap = "*"
dirs = "*"
rpassword = "*"
