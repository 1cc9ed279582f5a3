[package]
name = "mmv"
version = "0.1.0"
edition = "2021"
publish = false

[dependencies]
clap = { version = "*", features = ["derive"] }
clap-help = "*"
colored = "*"
exitcode = "*"
path-clean = "*"
walkdir = "*"
