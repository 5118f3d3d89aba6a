[package]
name = "mf-kernel"
version = "0.1.0"
edition = "2021"
publish = false

[dependencies]
anyhow = "=1.0.104"
chrono = "=0.4.45"
dirs = "=5.0.1"
hmac = "=0.12.1"
keyring = "=3.6.3"
log = "=0.4.35"
parking_lot = "=0.12.5"
rand = "=0.8.8"
rusqlite = { version = "=0.31.0", features = ["bundled"] }
serde = { version = "=1.0.229", features = ["derive"] }
serde_json = "=1.0.154"
sha2 = "=0.10.9"
thiserror = "=1.0.69"
toml = "=0.8.23"
uuid = { version = "=1.29.0", features = ["v7"] }
windows-sys = { version = "0.59", features = ["Win32_Foundation", "Win32_Security", "Win32_Security_Authorization"] }
zeroize = "1"
