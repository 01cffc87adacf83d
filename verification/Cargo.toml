[package]
name = "whiskers"
version = "0.1.0"
edition = "2021"
publish = false

[dependencies]
base64 = "*"
serde_json = "*"
titlecase = "*"
handlebars = "*"
catppuccin = "*"
clap = { version = "*", features = ["derive"] }
color-eyre = "*"
