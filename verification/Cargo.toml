[package]
name = "parse_pause"
version = "0.1.0"
edition = "2021"
publish = false

[dependencies]
clap = "2"
iso8601 = "*"
xml-rs = "*"
