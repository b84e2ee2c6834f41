[package]
name = "pdfscan"
version = "0.1.0"
edition = "2021"
publish = false

[dependencies]
pdf-extract = "*"
walkdir = "*"
zip = { version = "*", default-features = false, features = ["deflate"] }
chrono = "*"
dirs = "*"
clap = { version = "*", features = ["derive"] }
rayon = "*"
indicatif = "*"
