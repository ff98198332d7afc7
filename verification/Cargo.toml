[package]
name = "dk_rinha"
version = "0.1.0"
edition = "2021"
publish = false

[dependencies]
axum = "0.6"
chrono = "0.4"
dotenv = "0.15"
futures = "0.3"
hyperlocal = "0.8"
mongodb = "2"
nix = "0.27"
nohash-hasher = "0.2"
serde = { version = "1", features = ["derive"] }
serde_json = "1"
speedy = "0.8"
thiserror = "1"
tokio = { version = "1", features = ["full"] }
