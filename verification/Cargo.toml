[package]
name = "ncp_core"
version = "0.1.0"
edition = "2021"
publish = false

[dependencies]
sha2 = "=0.10.9"
hex = "=0.4.3"
pnet = "=0.35.0"
ipnet = "=2.12.2"
tokio = { version = "=1.54.1", features = ["full"] }
serde = { version = "=1.0.229", features = ["derive"] }
serde_json = "=1.0.154"
clap = { version = "=4.6.7", features = ["derive"] }
flate2 = "=1.1.10"
tar = "=0.4.46"
tempfile = "=3.27.0"
indicatif = "=0.17.11"
colored = "=2.2.0"
dirs = "=5.0.1"
crossterm = "=0.28.1"
ratatui = "=0.29.0"
tui-input = "=0.11.1"
futures = "=0.3.34"
once_cell = "=1.21.4"
thiserror = "=1.0.69"
reqwest = { version = "=0.12.28", default-features = false, features = ["rustls-tls"] }
chrono = { version = "=0.4.45", default-features = false, features = ["clock"] }
dns-lookup = "=2.1.1"
sysinfo = { version = "0.29", default-features = false }
