[package]
name = "patronus"
version = "0.1.0"
edition = "2021"
publish = false

[dependencies]
libloading = "=0.8.9"
config = { version = "=0.13.4", default-features = false, features = ["toml"] }
xdg = "=2.5.2"
enchant = "*"
languagetool = "*"
