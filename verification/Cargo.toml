[package]
name = "sea_baxx"
version = "0.1.0"
edition = "2021"
publish = false

[dependencies]
rand = "0.8"
serde = { version = "1", features = ["derive"] }
rmp-serde = "1"
clap = { version = "4", features = ["derive"] }
text_io = "0.1"
threadpool = "1"
