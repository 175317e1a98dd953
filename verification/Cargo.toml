[package]
name = "markdown_academic"
version = "0.1.0"
edition = "2021"
publish = false

[dependencies]
toml = "*"
latex2mathml = "*"
