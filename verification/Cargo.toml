[package]
name = "afterglow"
version = "0.1.0"
edition = "2021"
publish = false

[dependencies]
lazycell = "1.3"
dialoguer = "0.10"
minifb = "0.25"
nokhwa = { version = "0.10", features = ["input-native"] }
rppal = "0.14"
