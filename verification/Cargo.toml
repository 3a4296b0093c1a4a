[package]
name = "wattmeter"
version = "0.1.0"
edition = "2021"
publish = false

[dependencies]
anyhow = "1"
catppuccin = "*"
clap = { version = "4", features = ["derive"] }
ratatui = "*"
serde_json = "1"
zbus = "*"
