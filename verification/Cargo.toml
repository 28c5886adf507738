[package]
name = "docstore"
version = "0.1.0"
edition = "2021"
publish = false

[dependencies]
actix-multipart = "*"
actix-web = { version = "*", default-features = false, features = ["macros"] }
anyhow = "*"
clap = { version = "*", features = ["derive", "env"] }
env_logger = "*"
