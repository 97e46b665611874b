[package]
name = "aw11"
version = "0.1.0"
edition = "2021"
publish = false

[dependencies]
rabe-bn = "*"
rand = "0.8"
serde = "1"
serde_json = "1"
sha2 = "*"
aes-gcm = "*"
