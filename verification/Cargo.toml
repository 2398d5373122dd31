[package]
name = "bugzilla-cli"
version = "0.1.0"
edition = "2021"
publish = false

[dependencies]
anyhow = "1"
chrono = "0.4"
clap = { version = "4", features = ["derive"] }
dirs = "6"
serde_json = "1"
ureq = { version = "2", features = ["json"] }
