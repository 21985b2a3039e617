[package]
name = "myco"
version = "0.1.0"
edition = "2021"
publish = false

[dependencies]
base64 = "=0.22.1"
sha1 = "=0.10.7"
sha2 = "=0.10.9"
rand = "=0.8.8"
url = "=2.5.8"
serde = { version = "=1.0.229", features = ["derive"] }
serde_json = "=1.0.154"
toml = "=0.8.23"
toml_edit = "=0.21.1"
log = "=0.4.35"
colored = "=2.2.0"
clap = { version = "=4.6.7", features = ["cargo"] }
tokio = { version = "=1.54.1", features = ["rt", "net", "io-util", "sync", "time", "macros"] }
pathdiff = "=0.2.3"
zip = { version = "=0.6.6", default-features = false, features = ["deflate"] }
sourcemap = "=9.3.2"
syn = "=2.0.119"
reqwest = { version = "0.12", default-features = false, features = ["blocking", "rustls-tls"] }
