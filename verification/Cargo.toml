[package]
name = "cryptenv"
version = "0.1.0"
edition = "2021"
publish = false

[dependencies]
aes-gcm = "0.10"
base64 = "0.22"
clap = { version = "4", features = ["derive"] }
dirs = "*"
itertools = "*"
keyring = "3"
serde = { version = "1", features = ["derive"] }
serde_json = "1"
shellexpand = "3"
toml = "*"
zeroize = { version = "1", features = ["derive"] }
