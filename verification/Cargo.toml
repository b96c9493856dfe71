[package]
name = "imghost"
version = "0.1.0"
edition = "2021"
publish = false

[dependencies]
infer = "=0.22.0"
rand = "=0.8.8"
tide = "=0.16.0"
mongodb = { version = "=2.6.1", default-features = false, features = ["async-std-runtime"] }
bson = "=2.15.0"
async-std = { version = "=1.13.2", features = ["attributes"] }
futures = "=0.3.34"
handlebars = "=4.5.0"
serde = { version = "=1.0.229", features = ["derive"] }
serde_json = "=1.0.154"
serde_bytes = "=0.11.19"
anyhow = "=1.0.104"
log = "=0.4.34"
pretty_env_logger = "=0.4.0"
