[package]
name = "figura_backend"
version = "0.1.0"
edition = "2021"
publish = false

[dependencies]
rand = "=0.10.3"
actix = "*"
actix-web = { version = "4", default-features = false, features = ["macros", "rustls-0_23", "ws"] }
actix-web-actors = "*"
awc = { version = "*", default-features = false, features = ["rustls-0_23"] }
anyhow = "*"
clap = { version = "*", features = ["derive"] }
env_logger = "*"
log = "*"
parking_lot = "*"
rustls = "0.23"
rustls-native-certs = "*"
rustls-pemfile = "*"
serde = { version = "*", features = ["derive"] }
serde_json = "*"
thiserror = "*"
tokio = { version = "*", features = ["rt"] }
