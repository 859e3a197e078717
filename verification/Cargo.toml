[package]
name = "passcrypto"
version = "0.1.0"
edition = "2021"
publish = false

[dependencies]
aes = "0.8"
sha2 = "0.10"
rand = "0.8"
cursive = { version = "0.21", default-features = false, features = ["crossterm-backend"] }
serde = { version = "1", features = ["derive"] }
serde_json = "1"
arboard = { version = "3", default-features = false }
