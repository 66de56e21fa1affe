[package]
name = "teamdate"
version = "0.4.0"
edition = "2021"
publish = false

[dependencies]
chrono = "0.4"
chrono-english = "0.1"
chrono-tz = { version = "*", features = ["serde"] }
clap = "4"
dirs = "*"
serde = { version = "1", features = ["derive"] }
toml = "*"
wyz = "*"
