[package]
name = "cognitio"
version = "0.1.0"
edition = "2021"
publish = false

[dependencies]
clap = { version = "4", features = ["derive"] }
log = "0.4"
log4rs = "1"
notify = "6"
serde = { version = "1", features = ["derive"] }
serde_yaml = "0.9"
