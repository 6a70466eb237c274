[package]
name = "volume_backup"
version = "0.1.0"
edition = "2021"
publish = false

[dependencies]
chrono = "*"
cron = "*"
dotenv = "*"
flate2 = "*"
fs_extra = "*"
ssh2 = "*"
tar = "*"
tokio = { version = "*", features = ["rt", "macros", "time"] }
