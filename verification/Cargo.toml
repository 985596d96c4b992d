[package]
name = "file_vec"
version = "0.1.0"
edition = "2021"
publish = false

[dependencies]
rand = "0.8"
memmap2 = "0.9"
page_size = "0.6"
serde = { version = "1", features = ["derive"] }
serde_json = "1"
rmp-serde = "1"
