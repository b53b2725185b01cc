[package]
name = "cikit"
version = "0.1.0"
edition = "2021"
publish = false

[dependencies]
glob = "=0.3.4"
humantime = "=2.4.0"
tree_magic = { version = "=0.2.3", features = ["staticmime"] }
xml-rs = "=1.0.0"
toml = "=1.1.6"
serde = "=1.0.229"
serde_derive = "=1.0.229"
serde_json = "=1.0.151"
threadpool = "=1.8.1"
atty = "=0.2.14"
