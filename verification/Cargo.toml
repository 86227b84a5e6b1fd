[package]
name = "map_cache"
version = "0.1.0"
edition = "2021"
publish = false

[dependencies]
rstar = "0.12"
serde = { version = "1", features = ["derive"] }
serde_json = "1"
ureq = "2"
crossbeam-channel = "0.5"
geojson = "0.24"
