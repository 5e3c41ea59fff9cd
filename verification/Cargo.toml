[package]
name = "password_manager"
version = "0.1.0"
edition = "2021"
publish = false

[dependencies]
aes-gcm = "0.10"
argon2 = "0.5"
base64 = "0.22"
rand = "0.8"
clap = { version = "4", features = ["derive"] }
directories-next = "2"
serde = { version = "1", features = ["derive"] }
serde_json = "1"
anyhow = "1"
typenum = "1"
