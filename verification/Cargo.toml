[package]
name = "tc-cache"
version = "0.1.0"
edition = "2021"
publish = false

[dependencies]
clap = "2"
env_logger = "0.6"
filetime = "0.2"
futures = "0.1"
hex = "0.3"
lazy_static = "1"
log = "0.4"
md-5 = "0.8"
memmap = "0.7"
rayon = "1"
rusoto_core = "0.42"
rusoto_s3 = "0.42"
serde = { version = "1", features = ["derive"] }
serde_cbor = "0.10"
serde_json = "1"
snap = "0.2"
tokio = "0.1"
url = "1.7"
walkdir = "2"

[dev-dependencies]
tempfile = "3"
