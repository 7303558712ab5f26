[package]
name = "openbar-notifier"
version = "0.1.0"
edition = "2021"
publish = false

[dependencies]
url = "2"
uuid = { version = "1", features = ["serde"] }
reqwest = { version = "0.12", default-features = false, features = ["json", "cookies", "rustls-tls"] }
serde = { version = "1", features = ["derive"] }
serde_json = "1"
log = "0.4"
env_logger = "0.11"
dotenv = "0.15"
tokio = { version = "1", features = ["macros", "rt-multi-thread"] }
rustls = "0.23"
webpki-roots = "0.26"
