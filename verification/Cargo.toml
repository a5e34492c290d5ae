[package]
name = "ump"
version = "0.1.0"
edition = "2021"
publish = false

[dependencies]
midly = "0.5"
encoding_rs = "0.8"
unicode-width = "*"
dirs = "*"
serde = { version = "1", features = ["derive"] }
toml = "*"
clap = { version = "4", features = ["derive"] }
anyhow = "1"
rustysynth = "*"
cpal = "*"
log = "0.4"
