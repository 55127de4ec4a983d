[package]
name = "cvm"
version = "0.1.0"
edition = "2021"
publish = false

[dependencies]
ansi-builder = "*"
curl = "0.4"
json = "0.12"
reqwest = { version = "0.11", features = ["blocking"] }
sysinfo = "0.29"
term-inquiry = "*"
