[package]
name = "code_to_html"
version = "0.1.0"
edition = "2021"
publish = false

[dependencies]
anyhow = "*"
clap = "*"
dotenv = "*"
env_logger = "*"
log = "*"
tempfile = "*"
walkdir = "*"
