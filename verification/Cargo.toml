[package]
name = "rm4dev"
version = "0.1.0"
edition = "2021"
publish = false

[dependencies]
clap = { version = "4", features = ["derive"] }
include_dir = "0.7"
