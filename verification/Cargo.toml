[package]
name = "mise_plugins"
version = "0.1.0"
edition = "2021"
publish = false

[dependencies]
heck = "0.5"
versions = "*"
itertools = "*"
eyre = "0.6"
serde_json = "1"
strum = { version = "*", features = ["derive"] }
regex = "1"
tokio = { version = "1", features = ["rt", "time", "sync", "macros"] }
clap = "4"
async-trait = "0.1"
