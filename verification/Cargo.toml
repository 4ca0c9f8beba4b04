[package]
name = "playlist_engine"
version = "0.1.0"
edition = "2021"
publish = false

[dependencies]
rand = "=0.8.8"
rspotify = { version = "=0.15.3", default-features = false, features = ["client-ureq", "ureq-rustls-tls", "cli"] }
comfy-table = "=8.0.1"
structopt = "=0.3.26"
