[package]
name = "mould"
version = "0.1.0"
edition = "2021"
publish = false

[dependencies]
quick-xml = "*"
rust-ini = "*"
java-properties = "*"
serde = { version = "1", features = ["derive"] }
serde_json = "1"
serde_yaml = "*"
toml = "*"
clap = { version = "4", features = ["derive"] }
crossterm = "*"
ratatui = "*"
tui-input = "*"
dirs = "*"
anyhow = "1"
thiserror = "*"
log = "0.4"
env_logger = "*"
