[package]
name = "smix_cli"
version = "0.1.0"
edition = "2021"
publish = false

[dependencies]
serde = { version = "=1.0.229", features = ["derive"] }
serde_json = "=1.0.154"
serde_norway = "=0.9.42"
thiserror = "=2.0.21"
clap = { version = "=4.6.7", features = ["derive", "env"] }
