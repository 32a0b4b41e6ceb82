[package]
name = "homesync"
version = "0.1.0"
edition = "2021"
publish = false

[dependencies]
ansi_term = "=0.12.1"
clap = "=3.2.25"
git2 = "=0.13.25"
log = "=0.4.34"
notify = "=4.0.18"
paris = "=1.5.15"
serde = { version = "=1.0.229", features = ["derive"] }
serde_derive = "=1.0.229"
serde_yaml = "=0.8.26"
simplelog = { version = "=0.11.2", features = ["paris"] }
url = "=2.5.8"
yaml-rust = "=0.4.5"

[dev-dependencies]
tempfile = "=3.27.0"
