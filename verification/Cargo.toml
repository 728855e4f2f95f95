[package]
name = "cxlib_app"
version = "0.1.0"
edition = "2021"
publish = false

[dependencies]
bincode = "2"
clap = { version = "4", features = ["derive"] }
directories = "*"
inquire = "*"
log = "0.4"
redb = "*"
serde = { version = "1", features = ["derive"] }
thiserror = "*"
toml = "*"
