[package]
name = "crypt_sha512"
version = "1.0.0"
edition = "2021"
publish = false

[dependencies]
getrandom = "=0.3.4"
mcf = "=0.6.0"
password-hash = "=0.6.1"
sha2 = { version = "=0.11.1", features = ["zeroize"] }
subtle = "=2.6.1"
zeroize = "=1.9.1"
