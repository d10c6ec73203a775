[package]
name = "dash_mpd_cli"
version = "0.1.0"
edition = "2021"
publish = false

[dependencies]
anyhow = "=1.0.104"
clap = { version = "=4.6.7", features = ["cargo"] }
dash-mpd = { version = "=0.20.5", default-features = false, features = ["fetch", "rustls-tls"] }
fs-err = "=3.3.2"
indicatif = "=0.18.6"
reqwest = { version = "=0.13.5", default-features = false, features = ["rustls", "cookies", "gzip", "json", "charset", "http2", "system-proxy"] }
serde_json = "=1.0.151"
tempfile = "=3.27.0"
tokio = { version = "=1.53.2", features = ["rt-multi-thread", "macros"] }
tracing = "=0.1.44"
tracing-subscriber = "=0.3.23"
url = "=2.5.8"
versions = "*"
