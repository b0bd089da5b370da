[package]
name = "ma-irc"
version = "0.1.0"
edition = "2021"
publish = false

[dependencies]
anyhow = "*"
ciborium = "*"
clap = { version = "*", features = ["derive"] }
ma-core = { version = "=0.14.13", default-features = false, features = ["acl", "config", "kubo"] }
nanoid = "*"
reqwest = { version = "*", default-features = false, features = ["multipart", "query"] }
rustls = "*"
serde = { version = "*", features = ["derive"] }
serde_json = "*"
serde_yaml = "*"
tokio = { version = "*", features = ["full"] }
tokio-rustls = "*"
tracing = "*"
url = "*"
webpki-roots = "*"
zeroize = "*"
