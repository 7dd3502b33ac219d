[package]
name = "transfer"
version = "0.1.0"
edition = "2021"
publish = false

[dependencies]
clap = { version = "4", features = ["derive"] }
http = "1"
httparse = "1"
rustyline = "*"
log = "0.4"
