[package]
name = "dnsqb_service"
version = "0.1.0"
edition = "2021"
publish = false

[dependencies]
base64 = "=0.22.1"
bytes = "=1.12.1"
chacha20poly1305 = "=0.11.0"
flate2 = "=1.1.10"
futures-util = "=0.3.34"
getrandom = "=0.4.3"
hickory-proto = "=0.26.3"
http = "=1.5.0"
http-body-util = "=0.1.5"
hyper = { version = "=1.12.0", features = ["server", "http1"] }
keyring = "=4.2.0"
maxminddb = "=0.32.0"
parking_lot = "=0.12.5"
percent-encoding = "=2.3.2"
reqwest = { version = "=0.13.5", default-features = false, features = ["stream", "rustls"] }
serde = { version = "=1.0.229", features = ["derive"] }
serde_json = "=1.0.154"
sha1 = "=0.11.0"
sha2 = "=0.11.1"
tar = "=0.4.46"
thiserror = "=2.0.21"
tokio = { version = "=1.54.1", features = ["rt-multi-thread", "macros", "sync", "time", "net"] }
toml = "=1.1.8"
tracing = "=0.1.44"
tracing-subscriber = "=0.3.23"
winreg = "=0.56.0"
zeroize = "=1.9.1"
