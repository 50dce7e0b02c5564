[package]
name = "rtop"
version = "0.1.0"
edition = "2021"
publish = false

[dependencies]
chrono = "0.4"
crossterm = "0.28"
hostname = "0.4"
nvml-wrapper = "0.10"
ratatui = "0.29"
serde = { version = "1", features = ["derive"] }
sysinfo = "0.29"
tokio = { version = "1", features = ["rt-multi-thread", "macros", "time", "sync"] }
