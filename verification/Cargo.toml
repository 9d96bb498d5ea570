[package]
name = "ziggurat_core"
version = "0.1.0"
edition = "2021"
publish = false

[dependencies]
async-trait = "=0.1.92"
geoutils = "=0.5.1"
histogram = "=0.6.9"
ip2location = "=0.3.5"
ipgeolocate = "=0.3.6"
rand = "=0.8.8"
serde = { version = "=1.0.229", features = ["derive"] }
tabled = "=0.10.0"
