[package]
name = "hypemuzik"
version = "0.1.0"
edition = "2021"
publish = false

[dependencies]
anyhow = "1"
arc-swap = "1"
base64 = "0.22"
getrandom = { version = "0.2", features = ["std"] }
hound = "3"
iroh = { version = "*", default-features = false, features = ["tls-ring"] }
mdns-sd = { version = "*", default-features = false }
ort = { version = "=2.0.0-rc.10", default-features = false, features = ["std", "load-dynamic"] }
realfft = "3"
reqwest = { version = "0.12", default-features = false, features = ["blocking", "json", "rustls-tls"] }
rusqlite = { version = "0.32", features = ["bundled"] }
rustls = { version = "0.23", default-features = false, features = ["ring", "std"] }
serde = { version = "1", features = ["derive"] }
serde_json = "1"
thiserror = "2"
tokio = { version = "1", features = ["rt-multi-thread", "net", "io-util", "time", "macros", "sync"] }
