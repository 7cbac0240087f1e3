[package]
name = "package_check"
version = "0.1.0"
edition = "2021"
publish = false

[dependencies]
ignore = "*"
chrono = "*"
toml_edit = "*"
dirs = "*"
