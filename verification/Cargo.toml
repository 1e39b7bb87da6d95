[package]
name = "scrooge"
version = "0.1.0"
edition = "2021"
publish = false

[dependencies]
config = "0.9"
futures = "0.1"
human-size = "0.4"
hyper = "0.12"
lazy_static = "1"
log = "0.4"
pretty_env_logger = "0.3"
serde = { version = "1", features = ["derive"] }
structopt = "0.2"
unicase = "2"
