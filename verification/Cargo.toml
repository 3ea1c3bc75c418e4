[package]
name = "redlimit"
version = "0.1.0"
edition = "2021"
publish = false

[dependencies]
actix-utils = "3"
actix-web = { version = "4", features = ["rustls-0_20"] }
anyhow = "1"
async-trait = "0.1"
config = { version = "0.13", default-features = false, features = ["toml"] }
futures-core = "0.3"
log = "0.4"
rustis = { version = "*", features = ["pool"] }
rustls = "0.20"
rustls-pemfile = "1"
serde = { version = "1", features = ["derive"] }
serde_json = "1"
structured-logger = "*"
tokio = { version = "1", features = ["macros", "rt-multi-thread", "sync", "time"] }
tokio-util = "0.7"
