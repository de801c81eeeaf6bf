[package]
name = "irc"
version = "0.1.0"
edition = "2021"
publish = false

[dependencies]
unicase = "2"
