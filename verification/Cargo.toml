[package]
name = "engit"
version = "0.1.0"
edition = "2021"
publish = false

[dependencies]
globset = "0.4"
serde = { version = "1", features = ["derive"] }
serde_json = "1"
serde_yaml = "0.9"
chrono = "0.4"
clap = { version = "4", features = ["derive"] }
thiserror = "2"
zip = { version = "9", default-features = false, features = ["deflate"] }
