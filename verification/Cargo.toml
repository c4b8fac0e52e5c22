[package]
name = "airplay2"
version = "0.1.0"
edition = "2021"
publish = false

[dependencies]
aes = "=0.8.4"
aes-gcm = "=0.10.3"
base64 = "=0.22.1"
chacha20poly1305 = "=0.10.1"
ctr = "=0.9.2"
ed25519-dalek = { version = "2", features = ["rand_core"] }
hkdf = "=0.12.4"
num-bigint = { version = "=0.4.8", features = ["rand"] }
num-traits = "=0.2.19"
rand = "=0.8.8"
rsa = "=0.9.10"
serde = { version = "=1.0.229", features = ["derive"] }
serde_json = "=1.0.154"
sha2 = "=0.10.9"
thiserror = "=1.0.69"
tokio = { version = "=1.54.1", features = ["full"] }
tracing = "=0.1.44"
x25519-dalek = { version = "=2.0.1", features = ["static_secrets"] }
zeroize = "=1.9.1"
