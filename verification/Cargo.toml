[package]
name = "gps_logger"
version = "0.1.0"
edition = "2021"
publish = false

[dependencies]
chrono = "*"
clap = { version = "*", features = ["derive"] }
gpsd_proto = "*"
serde = { version = "*", features = ["derive"] }
serde_json = "*"
