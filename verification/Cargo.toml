[package]
name = "herdr_agent_diff"
version = "0.1.3"
edition = "2021"
publish = false

[dependencies]
crossterm = "*"
ignore = "*"
notify = "*"
ratatui = "*"
serde = { version = "1", features = ["derive"] }
serde_json = "1"
syntect = { version = "*", default-features = false, features = ["default-fancy"] }
unicode-width = "*"
