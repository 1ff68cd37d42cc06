[package]
name = "bk_rs"
version = "0.1.0"
edition = "2021"
publish = false

[dependencies]
sha2 = "0.10"
md5 = "0.7"
uuid = "1"
rayon = "1"
wincode = { version = "*", features = ["derive"] }
rand = "0.9"
hex = "0.4"
tokio = { version = "1", features = ["full"] }
rocket = "0.5"
clap = { version = "4", features = ["derive"] }
enum-iterator = "2"
