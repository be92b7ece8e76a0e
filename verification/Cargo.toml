[package]
name = "rsmus"
version = "0.1.0"
edition = "2021"
publish = false

[dependencies]
dirs = "*"
rodio = "*"
serde = "*"
serde_derive = "*"
simplelog = "*"
taglib = "*"
termion = "*"
toml = "*"
walkdir = "*"
