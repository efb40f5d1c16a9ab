[package]
name = "quickclipboard_core"
version = "0.1.0"
edition = "2021"
publish = false

[dependencies]
fastrand = "2"
uuid = { version = "1", features = ["v4"] }
chrono = "0.4"
sha2 = "0.10"
hex = "0.4"
base64 = "0.22"
argon2 = "0.5"
chacha20poly1305 = "0.10"
rand_core = { version = "0.6", features = ["getrandom"] }
serde = { version = "1", features = ["derive"] }
serde_json = "1"
