[package]
name = "pagefill"
version = "0.1.0"
edition = "2021"
publish = false

[dependencies]
scraper = "*"
walkdir = "*"
thiserror = "*"
clap = { version = "*", features = ["derive"] }
