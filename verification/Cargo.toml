[package]
name = "shellyrgbaudio"
version = "0.1.0"
edition = "2021"
publish = false

[dependencies]
anyhow = "=1.0.104"
serde = { version = "=1.0.229", features = ["derive"] }
serde_json = "=1.0.154"
thiserror = "=2.0.21"
digest_auth = "=0.3.1"
rand = "=0.8.8"
reqwest = { version = "=0.12.28", default-features = false, features = ["blocking", "json", "rustls-tls"] }
rustfft = "=6.4.1"
ctrlc = "=3.5.2"
cpal = "=0.18.2"
