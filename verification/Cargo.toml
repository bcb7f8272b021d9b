[package]
name = "regpol"
version = "0.1.0"
edition = "2021"
publish = false

[dependencies]
anyhow = "1"
clap = { version = "4", features = ["derive"] }
clap-verbosity-flag = "*"
csv = "1"
encoding_rs = "0.8"
hex = "0.4"
log = "0.4"
serde = { version = "1", features = ["derive"] }
simplelog = "0.12"
