[package]
name = "enft"
version = "0.1.0"
edition = "2021"
publish = false

[dependencies]
fastcrypto = { version = "=0.1.11", features = ["aes"] }
rand = "=0.8.8"
hmac-sha512 = "=1.1.13"
typenum = "=1.20.1"
bip32 = "=0.5.3"
tiny-bip39 = "=2.0.0"
clap = { version = "=4.6.7", features = ["derive"] }
exitcode = "=1.1.2"
image = { version = "=0.24.9", default-features = false, features = ["png"] }
serde = { version = "=1.0.229", features = ["derive"] }
bcs = "=0.1.6"

[dev-dependencies]
hex = "=0.4.3"
