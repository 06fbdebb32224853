[package]
name = "imap2slack"
version = "0.1.0"
edition = "2021"
publish = false

[dependencies]
regex = "=1.13.1"
base64 = "=0.22.1"
quoted_printable = "=0.5.2"
chrono = "=0.4.45"
imap = "=2.4.1"
native-tls = "=0.2.18"
toml = "=1.1.8"
serde = { version = "=1.0.229", features = ["derive"] }
log = "=0.4.34"
simple_logger = "=5.2.0"
slack-hook = { version = "=0.9.1", features = ["blocking"] }
