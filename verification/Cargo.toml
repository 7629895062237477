[package]
name = "unlimited_core"
version = "0.1.0"
edition = "2021"
publish = false

[dependencies]
unicode-width = "*"
utf8parse = "*"
clap = "4"
