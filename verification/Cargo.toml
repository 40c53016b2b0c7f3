[package]
name = "repat"
version = "0.1.0"
edition = "2021"
publish = false

[dependencies]
regex = "*"
ansi_term = "*"
similar = "*"
anyhow = "*"
structopt = "*"
