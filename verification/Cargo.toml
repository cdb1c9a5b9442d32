[package]
name = "index_generator"
version = "0.1.0"
edition = "2021"
publish = false

[dependencies]
base64 = "0.22"
chrono = "0.4"
getopts = "0.2"
include_dir = "0.7"
mime_guess = "2"
serde = { version = "1", features = ["derive"] }
tera = "1"
walkdir = "2"
