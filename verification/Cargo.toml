[package]
name = "torin"
version = "0.1.0"
edition = "2021"
publish = false

[dependencies]
chrono = "*"
clap = { version = "*", features = ["derive"] }
clap_complete = "*"
glob = "*"
globset = "*"
serde = { version = "*", features = ["derive"] }
toml = "*"
