[package]
name = "cargo-athena"
version = "0.6.0"
edition = "2021"
publish = false

[dependencies]
serde = { version = "=1.0.229", features = ["derive"] }
serde_json = "=1.0.154"
serde_norway = "=0.9.42"
humantime = "=2.4.0"
toml = "=0.8.23"
syn = { version = "=2.0.119", features = ["full", "visit", "visit-mut", "extra-traits"] }
quote = "=1.0.47"
proc-macro2 = "=1.0.107"
deluxe = "=0.5.0"
inventory = "=0.3.25"
clap = { version = "=4.6.7", features = ["derive"] }
console = "=0.15.11"
indicatif = "=0.17.11"
etcetera = "=0.8.0"
flate2 = "=1.1.10"
tar = "=0.4.46"
tokio = { version = "=1.54.1", features = ["rt", "net", "time"] }
reqwest = { version = "=0.12.28", default-features = false, features = ["json", "rustls-tls"] }
object_store = { version = "=0.12.5", features = ["aws"] }
kube = { version = "=1.1.0", default-features = false, features = ["client", "rustls-tls"] }
k8s-openapi = { version = "=0.25.0", features = ["latest"] }
