[package]
name = "yy_boss"
version = "0.1.0"
edition = "2021"
publish = false

[dependencies]
yy-typings = "=0.4.16"
semver = "=1.0.28"
serde = { version = "=1.0.229", features = ["derive"] }
serde_json = "=1.0.154"
serde_yaml = "0.9"
thiserror = "=1.0.69"
log = "=0.4.35"
anyhow = "=1.0.104"
camino = "=1.2.6"
clap = "2"
