[package]
name = "cynobot"
version = "0.1.0"
edition = "2021"
publish = false

[dependencies]
anyhow = "=1.0.104"
dirs = "=4.0.0"
itertools = "=0.10.5"
rand = "=0.8.8"
serde = { version = "=1.0.229", features = ["derive"] }
serde_json = "=1.0.154"
strum = { version = "=0.24.1", features = ["derive"] }
tokio = { version = "0.2", features = ["rt-threaded", "macros"] }
twitchchat = { version = "=0.14.8", features = ["async", "tokio", "tokio-util", "tokio-rustls", "webpki-roots"] }
unicode-properties = "=0.1.4"
