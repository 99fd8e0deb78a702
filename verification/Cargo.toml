[package]
name = "solar_clock"
version = "0.1.0"
edition = "2021"
publish = false

[dependencies]
chrono = "0.4"
ndarray = "*"
scirs2-interpolate = "*"
