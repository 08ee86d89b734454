[package]
name = "comic_dl"
version = "0.1.0"
edition = "2021"
publish = false

[dependencies]
zip = { version = "*", default-features = false, features = ["deflate"] }
scraper = "*"
reqwest = { version = "*", default-features = false, features = ["blocking"] }
clap = { version = "*", features = ["derive"] }
