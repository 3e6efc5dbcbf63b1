[package]
name = "optify"
version = "0.1.0"
edition = "2021"
publish = false

[dependencies]
serde_json = "=1.0.151"
regex = "=1.13.1"
liquid = "=0.23.1"
unicase = "=2.10.0"
config = "=0.15.27"
notify = "=8.2.0"
walkdir = "=2.5.0"
