[package]
name = "gps_analyzer"
version = "0.2.0"
edition = "2021"
publish = false

[dependencies]
proj = "*"
rayon = "*"
