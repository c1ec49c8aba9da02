[package]
name = "bresize2fs"
version = "0.1.0"
edition = "2021"
publish = false

[dependencies]
anyhow = "1"
bstr = "1"
byte-unit = "5"
clap = { version = "4", features = ["derive"] }
indicatif = "*"
inquire = "*"
