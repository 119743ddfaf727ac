[package]
name = "system_monitor"
version = "0.1.0"
edition = "2021"
publish = false

[dependencies]
nvml-wrapper = "0.10.0"
sysinfo = "0.33.0"
ratatui = "0.30.0"
crossterm = "0.29.0"
