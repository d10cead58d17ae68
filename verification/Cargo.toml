[package]
name = "velin"
version = "0.2.0"
edition = "2021"
publish = false

[dependencies]
anyhow = "=1.0.104"
chacha20poly1305 = "=0.10.1"
cpal = "=0.18.2"
getrandom = "=0.3.4"
hex = "=0.4.3"
hkdf = "=0.12.4"
local-ip-address = "=0.6.13"
serde = { version = "=1.0.229", features = ["derive"] }
serde_json = "=1.0.154"
sha2 = "=0.10.9"
tokio = { version = "=1.54.1", features = ["full"] }
windows = { version = "=0.62.2", features = ["Win32_Media_Audio", "Win32_System_Com"] }
x25519-dalek = { version = "=2.0.1", features = ["static_secrets"] }
