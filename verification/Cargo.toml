[package]
name = "davgate"
version = "0.1.0"
edition = "2021"
publish = false

[dependencies]
base64 = "*"
actix-web = "*"
dav-server = { version = "*", features = ["actix-compat"] }
clap = { version = "*", features = ["derive"] }
env_logger = "*"
log = "*"
http = "*"
