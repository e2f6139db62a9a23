[package]
name = "esi"
version = "0.1.0"
edition = "2021"
publish = false

[dependencies]
quick-xml = "*"
rand = "*"
url = "*"
