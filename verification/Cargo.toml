[package]
name = "bouncer"
version = "0.1.0"
edition = "2021"
publish = false

[dependencies]
anyhow = "=1.0.104"
arc-swap = "=1.9.3"
bytes = "=1.12.1"
http-body-util = "=0.1.5"
hyper = { version = "=1.12.0", features = ["server", "client", "http1"] }
hyper-rustls = { version = "=0.27.10", default-features = false, features = ["ring", "webpki-roots", "http1", "tls12"] }
hyper-util = { version = "=0.1.21", features = ["client-legacy", "http1", "tokio"] }
jsonwebtoken = "=9.3.1"
notify = "=6.1.1"
once_cell = "=1.21.4"
serde = { version = "=1.0.229", features = ["derive"] }
tokio = { version = "=1.54.1", features = ["macros", "rt-multi-thread", "net"] }
toml = "=0.8.23"
tracing = "=0.1.44"
tracing-subscriber = { version = "=0.3.23", features = ["env-filter"] }

[dev-dependencies]
serde_json = "=1.0.154"
