[package]
name = "command_server"
version = "0.1.0"
edition = "2021"
publish = false

[dependencies]
log = "0.4"
hyper = "0.12"
warp = "0.1"
handlebars = "1"
fern = "0.5"
chrono = "0.4"
futures = "0.1"
tokio-process = "0.2"
serde = "1"
serde_derive = "1"
serde_json = "1"
