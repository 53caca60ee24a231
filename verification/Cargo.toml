[package]
name = "abx2xml"
version = "0.1.0"
edition = "2021"
publish = false

[dependencies]
clap = "4"
xmlem = "*"
