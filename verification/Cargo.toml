[package]
name = "giff"
version = "0.1.0"
edition = "2021"
publish = false

[dependencies]
clap = { version = "4", features = ["derive"] }
crossterm = "0.29"
dirs = "6"
notify = "8"
ratatui = "0.30"
regex = "1"
serde = { version = "1", features = ["derive"] }
syntect = { version = "5", default-features = false, features = ["default-fancy"] }
toml = "0.9"
two-face = { version = "0.5", default-features = false, features = ["syntect-fancy"] }
unicode-width = "0.2"
