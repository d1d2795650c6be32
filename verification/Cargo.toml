[package]
name = "agcavc104test"
version = "0.1.0"
edition = "2021"
publish = false

[dependencies]
chrono = "0.4"
crossterm = "*"
fastrand = "2"
iec104 = "0.4"
ratatui = "*"
serde = { version = "1", features = ["derive"] }
tokio = { version = "1", features = ["full"] }
toml = "*"
