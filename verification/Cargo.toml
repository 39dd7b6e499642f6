[package]
name = "websub_sub"
version = "0.1.0"
edition = "2021"
publish = false

[dependencies]
base64 = "0.13"
hex = "0.4"
hmac = "0.12"
sha1 = "0.10"
sha2 = "0.10"
rand = "0.8"
mime = "0.3"
atom_syndication = "0.12"
rss = "2.0"
serde_urlencoded = "0.7"
http = "0.2"
chrono = "0.4"
tokio = { version = "1", features = ["full"] }
hyper = { version = "0.14", features = ["full"] }
hyper-tls = "0.5"
futures = "0.3"
diesel = { version = "2", features = ["sqlite", "r2d2"] }
structopt = "0.3"
anyhow = "1"
env_logger = "0.10"
log = "0.4"
bytes = "1"
http-body = "0.4"
tokio-stream = { version = "0.1", features = ["net"] }
