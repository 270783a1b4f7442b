[package]
name = "tripflow"
version = "0.1.0"
edition = "2021"
publish = false

[dependencies]
textwrap = "*"
webbrowser = "*"
anyhow = "*"
reqwest = { version = "*", default-features = false }
