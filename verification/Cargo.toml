[package]
name = "sentry_tunnel"
version = "0.1.0"
edition = "2021"
publish = false

[dependencies]
serde_json = "1"
sentry-types = "*"
gotham = "0.7"
isahc = "1"
log = "0.4"
mime = "0.3"
anyhow = "1"
