[package]
name = "miri_the_world"
version = "0.1.0"
edition = "2021"
publish = false

[dependencies]
semver = "1"
xz2 = "0.1"
clap = { version = "4", features = ["derive"] }
env_logger = "*"
log = "*"
uuid = { version = "1", features = ["v4"] }
serde_json = "1"
