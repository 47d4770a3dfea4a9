[package]
name = "gparallel"
version = "0.1.0"
edition = "2021"
publish = false

[dependencies]
anyhow = "*"
atty = "*"
clap = { version = "*", features = ["derive"] }
crossterm = "*"
nix = { version = "*", features = ["signal"] }
nvml-wrapper = "*"
ratatui = "*"
tokio = { version = "*", features = ["full"] }
