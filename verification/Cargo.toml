[package]
name = "bluewren"
version = "0.2.0"
edition = "2021"
publish = false

[dependencies]
anyhow = "1"
blake3 = "1"
rand = "0.8"
zeroize = "1"
tokio = { version = "1", features = ["full"] }
clap = { version = "4", features = ["derive"] }
tracing = "0.1"
tracing-subscriber = { version = "0.3", features = ["env-filter", "fmt"] }
iroh = "*"
iroh-tickets = "*"
