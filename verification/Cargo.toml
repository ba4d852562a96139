[package]
name = "tinydnsproxy"
version = "0.1.0"
edition = "2021"
publish = false

[dependencies]
rand = "0.8"
curl = "0.4"
native-tls = "0.2"
num_cpus = "1"
threadpool = "1"
toml = "0.8"
serde = { version = "1", features = ["derive"] }
