[package]
name = "name_time_period"
version = "0.1.0"
edition = "2021"
publish = false

[dependencies]
chrono = "0.4"
clap = { version = "4", features = ["derive"] }
dirs = "*"
regex = "1"
serde_yaml = "0.9"
