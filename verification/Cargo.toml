[package]
name = "treesaver"
version = "0.1.0"
edition = "2021"
publish = false

[dependencies]
anyhow = "*"
clap = { version = "*", features = ["derive"] }
humantime-serde = "*"
niri-ipc = "*"
serde = { version = "*", features = ["derive"] }
serde_yaml = "*"
swayipc = "*"
tracing = "*"
tracing-appender = "*"
tracing-subscriber = { version = "*", features = ["env-filter"] }
xdg = "*"
