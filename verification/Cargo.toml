[package]
name = "kiabluejay"
version = "0.1.6"
edition = "2021"
publish = false

[dependencies]
actix-files = "0.6"
actix-session = { version = "0.10", features = ["cookie-session"] }
actix-web = { version = "4", features = ["rustls-0_23"] }
actix-web-lab = "0.24"
chrono = "0.4"
env_logger = { version = "0.11", features = ["kv"] }
eyre = "0.6"
log = { version = "0.4", features = ["kv", "std"] }
rustls = "0.23"
rustls-pemfile = "2"
serde = { version = "1", features = ["derive"] }
serde_yml = "0.0.12"
tokio = { version = "1", features = ["macros", "rt"] }
