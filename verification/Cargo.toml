[package]
name = "memoparsa"
version = "0.1.0"
edition = "2021"
publish = false

[dependencies]
chrono = "0.4"
chrono-tz = "*"
ics = "*"
uuid = { version = "1", features = ["v4"] }
clap = "2"
env_logger = "*"
exitcode = "*"
log = "0.4"
