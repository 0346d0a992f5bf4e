[package]
name = "weather_station"
version = "0.1.0"
edition = "2021"
publish = false

[dependencies]
log = { version = "0.4", features = ["serde"] }
log4rs = "1"
serde = { version = "1", features = ["derive"] }
toml = "0.8"
ureq = "3"
