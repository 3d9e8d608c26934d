[package]
name = "banqi_collector"
version = "0.1.0"
edition = "2021"
publish = false

[dependencies]
prost = "0.13"
sha2 = "0.10"
flate2 = "1"
serde_json = "1"
anyhow = "1"
clap = { version = "4", features = ["derive"] }
num_cpus = "1"
rayon = "1"
reqwest = { version = "0.12", default-features = false, features = ["rustls-tls"] }
serde = { version = "1", features = ["derive"] }
tokio = { version = "1", features = ["rt-multi-thread", "sync", "time"] }
toml = "0.8"
tonic = "0.12"
