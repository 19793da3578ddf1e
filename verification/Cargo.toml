[package]
name = "vurnchat"
version = "0.9.0"
edition = "2021"
publish = false

[dependencies]
aes-gcm = "0.10"
axum = { version = "0.7", default-features = false, features = ["http1", "tokio", "ws"] }
base64 = "0.22"
bincode = "1"
futures = "0.3"
futures-util = "0.3"
hex = "0.4"
hmac = "0.12"
hyper = { version = "1", features = ["server", "http1"] }
hyper-util = { version = "0.1", features = ["server", "http1", "service", "tokio"] }
libp2p = { version = "0.55", features = ["tcp", "dns", "noise", "yamux", "kad", "gossipsub", "identify", "ping", "tokio", "macros"] }
ml-dsa = "*"
ml-kem = "0.2"
pbkdf2 = { version = "0.12", features = ["hmac"] }
qrcode = { version = "0.14", default-features = false, features = ["svg"] }
rand = "0.8"
rustls = { version = "0.23", default-features = false, features = ["ring", "std", "logging", "tls12"] }
rustls-pemfile = "2"
sha2 = "0.10"
sled = "0.34"
tokio = { version = "1", features = ["full"] }
tokio-rustls = { version = "0.26", default-features = false, features = ["ring", "logging", "tls12"] }
tower = "0.5"
tracing = "0.1"
tracing-subscriber = { version = "0.3", default-features = false, features = ["env-filter", "fmt"] }
x25519-dalek = { version = "2", features = ["static_secrets"] }
