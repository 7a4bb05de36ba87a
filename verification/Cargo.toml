[package]
name = "jenpack"
version = "0.1.0"
edition = "2021"
publish = false

[dependencies]
anyhow = "*"
dashmap = "*"
env_logger = "*"
glob = "*"
http-body-util = "*"
hyper = { version = "*", features = ["server", "http1"] }
hyper-util = { version = "*", features = ["tokio"] }
log = "*"
notify = "*"
pathdiff = "*"
regex = "*"
serde = { version = "*", features = ["derive"] }
sha2 = "*"
tempfile = "*"
tokio = { version = "*", features = ["rt-multi-thread", "macros", "net"] }
toml = "*"
walkdir = "*"
