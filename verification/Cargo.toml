[package]
name = "macarons"
version = "0.1.0"
edition = "2021"
publish = false

[dependencies]
regex = "*"
rusqlite = { version = "*", features = ["bundled"] }
clap = "*"
