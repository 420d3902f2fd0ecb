[package]
name = "rspass"
version = "0.1.0"
edition = "2021"
publish = false

[dependencies]
git2 = { version = "*", default-features = false }
rsa = "0.9"
rand = "0.8"
pgp = "0.14"
chrono = "*"
dirs = "*"

[dev-dependencies]
tempfile = "*"
