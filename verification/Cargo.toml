[package]
name = "homelab"
version = "0.1.0"
edition = "2021"
publish = false

[dependencies]
anyhow = "1"
async-trait = "0.1"
chrono = "0.4"
clap = { version = "4", features = ["derive"] }
crossbeam = "0.8"
crossterm = "0.28"
futures-util = "0.3"
hickory-proto = "0.24"
hickory-server = "0.24"
influxdb2 = "*"
log = "0.4"
log4rs = "1"
moka = { version = "0.12", features = ["future"] }
ratatui = "0.29"
reqwest = { version = "0.12", features = ["json"] }
serde = { version = "1", features = ["derive"] }
tokio = { version = "1", features = ["full"] }
tracing = "0.1"
tracing-subscriber = "0.3"
unicode-width = "0.2"
