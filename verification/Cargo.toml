[package]
name = "media_parser"
version = "0.1.0"
edition = "2021"
publish = false

[dependencies]
circular = "0.3"
winnow = "0.4"
clap = { version = "4", features = ["derive"] }
