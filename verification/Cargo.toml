[package]
name = "overtls"
version = "0.1.0"
edition = "2021"
publish = false

[dependencies]
clap = { version = "=4.6.7", features = ["derive"] }
ctrlc2 = { version = "=3.5.9", features = ["termination", "tokio"] }
daemonize = "=0.5.0"
dotenvy = "=0.15.7"
env_logger = "=0.11.11"
lazy_static = "=1.5.1"
log = "=0.4.34"
rustls-pemfile = "=2.2.0"
serde = { version = "=1.0.229", features = ["derive"] }
serde_json = "=1.0.154"
tokio = { version = "=1.54.1", features = ["full"] }
tokio-rustls = { version = "=0.26.6", default-features = false, features = ["ring", "tls12"] }
webpki-roots = "=1.0.11"
