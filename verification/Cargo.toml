[package]
name = "retsend"
version = "0.1.0"
edition = "2021"
publish = false

[dependencies]
getrandom = "=0.3.4"
sha2 = "=0.10.9"
serde = { version = "=1.0.229", features = ["derive"] }
serde_json = "=1.0.154"
toml = "=0.8.23"
log = "0.4"
env_logger = "0.11"
socket2 = { version = "0.5", features = ["all"] }
ureq = "3"
rustls = { version = "0.23", default-features = false, features = ["ring", "std", "logging", "tls12"] }
rcgen = { version = "0.14", default-features = false, features = ["crypto", "pem", "ring"] }
