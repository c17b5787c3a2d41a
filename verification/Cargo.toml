[package]
name = "workspaced"
version = "0.1.0"
edition = "2021"
publish = false

[dependencies]
anyhow = "1"
clap = { version = "4", features = ["derive"] }
dirs = "6"
env_logger = "0.11"
indexmap = { version = "2", features = ["serde"] }
log = "0.4"
nix = { version = "0.30", features = ["process", "signal"] }
notify = "8"
regex = "1"
serde = { version = "1", features = ["derive"] }
serde_ignored = "0.1"
serde_json = "1"
toml = { version = "0.9", features = ["preserve_order"] }
toml_edit = "0.23"
