[package]
name = "timefs"
version = "0.1.0"
edition = "2021"
publish = false

[dependencies]
users = "0.11"
log = "0.4"
env_logger = "*"
clap = { version = "4", features = ["derive"] }
crossbeam = "0.8"
parking_lot = "0.12"
libc = "0.2"
