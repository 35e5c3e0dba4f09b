[package]
name = "weather_stations"
version = "0.1.0"
edition = "2021"
publish = false

[dependencies]
datafusion = { version = "*", default-features = false }
actix-web = { version = "4", default-features = false, features = ["macros"] }
