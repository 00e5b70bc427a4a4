[package]
name = "gdocs2hugo"
version = "0.1.0"
edition = "2021"
publish = false

[dependencies]
html5ever = "=0.26.0"
markup5ever = "=0.11.0"
url = "=2.5.8"
scraper = "=0.17.1"
tendril = "=0.4.3"
anyhow = "=1.0.104"
serde = { version = "=1.0.229", features = ["derive"] }
serde_json = "=1.0.154"
serde_yaml = "=0.9.34"
clap = { version = "=3.2.25", features = ["derive"] }
csv = "=1.4.0"
chrono = { version = "=0.4.45", features = ["serde"] }
itertools = "=0.10.5"
rayon = "=1.12.0"
tokio = { version = "=1.54.1", features = ["rt", "rt-multi-thread"] }
bytes = "=1.12.1"
hyper = { version = "=0.14.32", features = ["client", "http1", "http2"] }
http = "=0.2.12"
mime_guess = "=2.0.5"
google-docs1 = "=5.0.5"
google-drive3 = "=5.0.5"
hyper-rustls = "0.24"
image = { version = "=0.24.9", default-features = false, features = ["png", "jpeg"] }
reqwest = { version = "=0.11.27", default-features = false, features = ["blocking", "rustls-tls"] }
backtrace-on-stack-overflow = "=0.3.0"

[dev-dependencies]
regex = "1"
