[package]
name = "jsonrpc_cli"
version = "0.1.0"
edition = "2021"
publish = false

[dependencies]
serde_json = "1"
anyhow = "1"
clap = "4"
ureq = "2"
