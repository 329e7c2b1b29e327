[package]
name = "rustrtc"
version = "0.1.0"
edition = "2021"
publish = false

[dependencies]
aes = "0.8"
aes-gcm = "0.10"
anyhow = "1"
async-trait = "0.1"
bytes = { version = "1", features = ["serde"] }
crc32c = "0.6"
ctr = "0.9"
hmac = "0.12"
md-5 = "0.10"
p256 = { version = "0.13", features = ["ecdh", "ecdsa", "pem", "pkcs8"] }
rand_core = { version = "0.6", features = ["getrandom"] }
rcgen = "0.14"
serde = { version = "1", features = ["derive"] }
serde_json = "1"
sha1 = "0.10"
sha2 = "0.10"
thiserror = "2"
tokio = { version = "1", features = ["full"] }
tracing = "0.1"

[dev-dependencies]
stun = "*"
