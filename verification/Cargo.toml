[package]
name = "mkcss"
version = "0.1.0"
edition = "2021"
publish = false

[dependencies]
scraper = "*"
clap = { version = "4", features = ["derive"] }
clap-verbosity-flag = "*"
colored = "*"
env_logger = "*"
inquire = "*"
log = "0.4"
