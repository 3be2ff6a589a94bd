[package]
name = "cauldron"
version = "0.1.0"
edition = "2021"
publish = false

[dependencies]
xmlparser = "*"
termion = "*"
argh = "*"

[dependencies.zip]
version = "*"
default-features = false
features = ["deflate"]
